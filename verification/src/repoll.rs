//! Laws of the receive pipeline: what one push does to the message of its
//! part, and why reading the same records twice stores nothing the second
//! time, for multipart messages too.
//!
//! Within one batch of records, every group of parts that a batch holds
//! completely is assembled during the first poll, always from the same parts;
//! what stays pending holds only parts of the batch. A second poll of the
//! batch can therefore only assemble messages whose ids are stored already.

use vstd::prelude::*;

use crate::manager::MESSAGE_LIMIT;
use crate::model::SmsView;
use crate::sms::inbox::{
    all_filled, assembled, distinct_keys, first_received, joined_bodies, part_sources, file_part, find_group_from, groups_well_formed,
    is_fresh, keep_fresh, lemma_find_group_from, lemma_find_group_none, lemma_keep_fresh_subset,
    lemma_keep_fresh_well_formed, none_slots, same_group, single_part, valid_concatenation,
    CompleteView, IncomingSms, PendingView,
};
use crate::sms::inbox::{identity_text, push_outcome, stored_time};
use crate::text::join;
use crate::ids::uuid_v5_oid_text;
use crate::providers::at::AtPoll;
use crate::model::sms_views;
use crate::state::{
    capped, has_message_id, poll_applied, poll_fold, push_step, stored_view,
    AppState,
};

verus! {

// ---------------------------------------------------------------------------
// A push keeps the groups well formed.
// ---------------------------------------------------------------------------

/// Filing a valid part keeps one slot per part in every group and one group per key.
pub proof fn lemma_file_part_well_formed(fresh: Seq<PendingView>, incoming: IncomingSms, c: crate::sms::pdu::Concatenation, now: u64)
    requires
        groups_well_formed(fresh),
        valid_concatenation(c),
    ensures
        groups_well_formed(file_part(fresh, incoming, c, now).0),
        0 <= file_part(fresh, incoming, c, now).1 < file_part(fresh, incoming, c, now).0.len(),
        same_group(file_part(fresh, incoming, c, now).0[file_part(fresh, incoming, c, now).1], incoming.sender@, c.reference, c.total),
{
    let (filed, k) = file_part(fresh, incoming, c, now);
    let found = find_group_from(fresh, incoming.sender@, c.reference, c.total, 0);
    lemma_find_group_from(fresh, incoming.sender@, c.reference, c.total, 0);
    if found is None {
        lemma_find_group_none(fresh, incoming.sender@, c.reference, c.total, 0);
        assert(none_slots(c.total as nat).update(c.sequence - 1, Some(incoming)).len()
            == c.total as nat);
    }
    assert forall|j: int| 0 <= j < filed.len() implies #[trigger] filed[j].parts.len()
        == filed[j].total as nat && filed[j].total >= 1 by {
        if j != k {
            assert(j < fresh.len());
            assert(filed[j] == fresh[j]);
            assert(fresh[j].parts.len() == fresh[j].total as nat);
            assert(fresh[j].total >= 1);
        } else if found is Some {
            assert(fresh[k].parts.len() == fresh[k].total as nat && fresh[k].total >= 1);
            assert(filed[k].parts.len() == fresh[k].parts.len());
        } else {
            assert(filed[k].parts == none_slots(c.total as nat).update(c.sequence - 1, Some(incoming)));
        }
    }
    assert forall|a: int, b: int| 0 <= a < b < filed.len() implies distinct_keys(
        #[trigger] filed[a],
        #[trigger] filed[b],
    ) by {
        if found is None && b == k {
            assert(filed[a] == fresh[a]);
        } else {
            assert(filed[a].sender == fresh[a].sender && filed[a].reference
                == fresh[a].reference && filed[a].total == fresh[a].total);
            assert(filed[b].sender == fresh[b].sender && filed[b].reference
                == fresh[b].reference && filed[b].total == fresh[b].total);
        }
    }
}

/// Removing a group keeps the groups well formed.
pub proof fn lemma_remove_well_formed(filed: Seq<PendingView>, k: int)
    requires
        groups_well_formed(filed),
        0 <= k < filed.len(),
    ensures
        groups_well_formed(filed.remove(k)),
{
    let removed = filed.remove(k);
    assert forall|a: int, b: int| 0 <= a < b < removed.len() implies distinct_keys(
        #[trigger] removed[a],
        #[trigger] removed[b],
    ) by {
        let a2 = if a < k { a } else { a + 1 };
        let b2 = if b < k { b } else { b + 1 };
        assert(removed[a] == filed[a2] && removed[b] == filed[b2]);
    }
    assert forall|j: int| 0 <= j < removed.len() implies #[trigger] removed[j].parts.len()
        == removed[j].total as nat && removed[j].total >= 1 by {
        let j2 = if j < k { j } else { j + 1 };
        assert(removed[j] == filed[j2]);
        assert(filed[j2].parts.len() == filed[j2].total as nat);
    }
}

/// One push leaves one slot per part in every group and one group per key.
pub proof fn lemma_push_step_well_formed(before: Seq<PendingView>, incoming: IncomingSms, now: u64)
    requires
        groups_well_formed(before),
    ensures
        groups_well_formed(push_step(before, incoming, now).0),
{
    let fresh = keep_fresh(before, now);
    lemma_keep_fresh_well_formed(before, now);
    match incoming.concatenation {
        None => {},
        Some(c) => {
            if valid_concatenation(c) {
                lemma_file_part_well_formed(fresh, incoming, c, now);
                let (filed, k) = file_part(fresh, incoming, c, now);
                if all_filled(filed[k].parts) {
                    lemma_remove_well_formed(filed, k);
                }
            }
        },
    }
}

// ---------------------------------------------------------------------------
// What one push does to its own message.
// ---------------------------------------------------------------------------

/// The parts held for the message (sender, reference, total): those of its
/// group, or none where it has no group.
pub open spec fn pending_parts(ps: Seq<PendingView>, sender: Seq<char>, reference: u16, total: u8) -> Seq<
    Option<IncomingSms>,
> {
    match find_group_from(ps, sender, reference, total, 0) {
        Some(i) => ps[i].parts,
        None => none_slots(total as nat),
    }
}

/// The parts of the message of `incoming` once it is filed in the slot of its sequence number.
pub open spec fn filed_parts(ps: Seq<PendingView>, incoming: IncomingSms, c: crate::sms::pdu::Concatenation) -> Seq<
    Option<IncomingSms>,
> {
    pending_parts(ps, incoming.sender@, c.reference, c.total).update(c.sequence - 1, Some(incoming))
}

/// The grouping law of a push of a valid part. Stale groups go first; then the
/// parts still held for its message, with this part in its slot, make `P`.
/// Where `P` still misses a part, the push returns nothing and the message's
/// group holds `P`. Otherwise it returns the message of `P` (the bodies in
/// sequence order, their source keys in that order joined by `|`, the first
/// timestamp in that order, the sender of the part) and the message has no
/// group left.
pub proof fn lemma_push_grouping(
    before: Seq<PendingView>,
    incoming: IncomingSms,
    now: u64,
    after: Seq<PendingView>,
    r: Result<Option<CompleteView>, Seq<char>>,
)
    requires
        groups_well_formed(before),
        push_outcome(before, incoming, now, after, r),
        incoming.concatenation matches Some(c) && valid_concatenation(c),
    ensures
        ({
            let c = incoming.concatenation.unwrap();
            let parts = filed_parts(keep_fresh(before, now), incoming, c);
            if all_filled(parts) {
                &&& r == Ok::<Option<CompleteView>, Seq<char>>(
                    Some(
                        CompleteView {
                            source_key: join(part_sources(parts), "|"@),
                            sender: incoming.sender@,
                            body: joined_bodies(parts),
                            received_at: first_received(parts),
                        },
                    ),
                )
                &&& forall|j: int|
                    0 <= j < after.len() ==> !same_group(
                        #[trigger] after[j],
                        incoming.sender@,
                        c.reference,
                        c.total,
                    )
            } else {
                &&& r == Ok::<Option<CompleteView>, Seq<char>>(None)
                &&& exists|j: int|
                    0 <= j < after.len() && same_group(
                        after[j],
                        incoming.sender@,
                        c.reference,
                        c.total,
                    ) && #[trigger] after[j].parts == parts
            }
        }),
{
    let c = incoming.concatenation.unwrap();
    let fresh = keep_fresh(before, now);
    lemma_keep_fresh_well_formed(before, now);
    lemma_file_part_well_formed(fresh, incoming, c, now);
    let (filed, k) = file_part(fresh, incoming, c, now);
    let parts = filed_parts(fresh, incoming, c);
    let found = find_group_from(fresh, incoming.sender@, c.reference, c.total, 0);
    lemma_find_group_from(fresh, incoming.sender@, c.reference, c.total, 0);
    match found {
        Some(i) => {
            assert(k == i);
            assert(pending_parts(fresh, incoming.sender@, c.reference, c.total) == fresh[i].parts);
            assert(filed[k].parts == fresh[i].parts.update(c.sequence - 1, Some(incoming)));
        },
        None => {
            assert(pending_parts(fresh, incoming.sender@, c.reference, c.total) == none_slots(c.total as nat));
        },
    }
    assert(filed[k].parts == parts);
    if all_filled(parts) {
        assert(after == filed.remove(k));
        assert forall|j: int| 0 <= j < after.len() implies !same_group(
            #[trigger] after[j],
            incoming.sender@,
            c.reference,
            c.total,
        ) by {
            let j2 = if j < k { j } else { j + 1 };
            assert(after[j] == filed[j2]);
            if j2 < k {
                assert(distinct_keys(filed[j2], filed[k]));
            } else {
                assert(distinct_keys(filed[k], filed[j2]));
            }
        }
    } else {
        assert(after[k].parts == parts);
    }
}

/// Expiry: a group whose first part came `PART_TTL_MILLIS` or more before the
/// push is dropped before the part is filed. None of its parts reaches the
/// result: a part of its message starts a new group, which completes at once
/// only for a single-part message, and every group of that message after the
/// push was started by this push.
pub proof fn lemma_push_drops_stale_group(
    before: Seq<PendingView>,
    incoming: IncomingSms,
    now: u64,
    after: Seq<PendingView>,
    r: Result<Option<CompleteView>, Seq<char>>,
    j: int,
)
    requires
        groups_well_formed(before),
        push_outcome(before, incoming, now, after, r),
        0 <= j < before.len(),
        !is_fresh(before[j], now),
        incoming.concatenation matches Some(c) && valid_concatenation(c) && same_group(
            before[j],
            incoming.sender@,
            c.reference,
            c.total,
        ),
    ensures
        ({
            let c = incoming.concatenation.unwrap();
            &&& filed_parts(keep_fresh(before, now), incoming, c) == none_slots(c.total as nat).update(
                c.sequence - 1,
                Some(incoming),
            )
            &&& c.total > 1 ==> r == Ok::<Option<CompleteView>, Seq<char>>(None)
            &&& forall|i: int|
                0 <= i < after.len() && same_group(
                    #[trigger] after[i],
                    incoming.sender@,
                    c.reference,
                    c.total,
                ) ==> after[i].created_at_ms == now
        }),
{
    let c = incoming.concatenation.unwrap();
    let fresh = keep_fresh(before, now);
    lemma_keep_fresh_subset(before, now);
    lemma_keep_fresh_well_formed(before, now);
    let found = find_group_from(fresh, incoming.sender@, c.reference, c.total, 0);
    lemma_find_group_from(fresh, incoming.sender@, c.reference, c.total, 0);
    if found is Some {
        let f = found.unwrap();
        assert(before.contains(fresh[f]));
        let w = choose|w: int| 0 <= w < before.len() && before[w] == fresh[f];
        if w != j {
            if w < j {
                assert(distinct_keys(before[w], before[j]));
            } else {
                assert(distinct_keys(before[j], before[w]));
            }
        }
        assert(is_fresh(fresh[f], now));
        assert(false);
    }
    lemma_find_group_none(fresh, incoming.sender@, c.reference, c.total, 0);
    lemma_push_grouping(before, incoming, now, after, r);
    let parts = filed_parts(fresh, incoming, c);
    if c.total > 1 {
        let other: int = if c.sequence == 1 { 1 } else { 0 };
        assert(parts[other] is None);
    }
    lemma_file_part_well_formed(fresh, incoming, c, now);
    let (filed, k) = file_part(fresh, incoming, c, now);
    assert forall|i: int|
        0 <= i < after.len() && same_group(
            #[trigger] after[i],
            incoming.sender@,
            c.reference,
            c.total,
        ) implies after[i].created_at_ms == now by {
        if all_filled(parts) {
        } else {
            assert(after == filed);
            if i != k {
                if i < k {
                    assert(distinct_keys(filed[i], filed[k]));
                } else {
                    assert(distinct_keys(filed[k], filed[i]));
                }
            }
        }
    }
}

// ---------------------------------------------------------------------------
// The parts of a batch.
// ---------------------------------------------------------------------------

/// `m` is part `q + 1` of the multipart message (sender, reference, total).
pub open spec fn is_part(m: IncomingSms, sender: Seq<char>, reference: u16, total: u8, q: int) -> bool {
    &&& m.concatenation matches Some(c)
    &&& m.sender@ == sender
    &&& c.reference == reference
    &&& c.total == total
    &&& c.sequence == q + 1
}

/// `m` belongs to the multipart message (sender, reference, total).
pub open spec fn in_message(m: IncomingSms, sender: Seq<char>, reference: u16, total: u8) -> bool {
    &&& m.concatenation matches Some(c)
    &&& m.sender@ == sender
    &&& c.reference == reference
    &&& c.total == total
}

/// Two records claim the same part of the same multipart message.
pub open spec fn same_part(a: IncomingSms, b: IncomingSms) -> bool {
    &&& a.concatenation is Some
    &&& a.concatenation == b.concatenation
    &&& a.sender@ == b.sender@
}

/// Records of the batch that claim the same part are the same record.
pub open spec fn parts_consistent(s: Seq<IncomingSms>) -> bool {
    forall|i: int, j: int|
        0 <= i < s.len() && 0 <= j < s.len() && same_part(#[trigger] s[i], #[trigger] s[j]) ==> s[i]
            == s[j]
}

/// Every multipart record of the batch has valid sequence metadata.
pub open spec fn metadata_valid(s: Seq<IncomingSms>) -> bool {
    forall|i: int|
        0 <= i < s.len() ==> match (#[trigger] s[i]).concatenation {
            Some(c) => valid_concatenation(c),
            None => true,
        }
}

pub open spec fn has_part(s: Seq<IncomingSms>, sender: Seq<char>, reference: u16, total: u8, q: int) -> bool {
    exists|i: int| 0 <= i < s.len() && #[trigger] is_part(s[i], sender, reference, total, q)
}

/// The record of the batch that is part `q + 1` of the message.
pub open spec fn batch_part(s: Seq<IncomingSms>, sender: Seq<char>, reference: u16, total: u8, q: int) -> IncomingSms {
    s[choose|i: int| 0 <= i < s.len() && #[trigger] is_part(s[i], sender, reference, total, q)]
}

/// The batch holds every part of the message.
pub open spec fn complete_in(s: Seq<IncomingSms>, sender: Seq<char>, reference: u16, total: u8) -> bool {
    forall|q: int| 0 <= q < total ==> #[trigger] has_part(s, sender, reference, total, q)
}

/// The message that the batch's parts of (sender, reference, total) make.
pub open spec fn batch_message(s: Seq<IncomingSms>, sender: Seq<char>, reference: u16, total: u8) -> CompleteView {
    assembled(
        PendingView {
            sender,
            reference,
            total,
            created_at_ms: 0,
            parts: Seq::new(total as nat, |q: int| Some(batch_part(s, sender, reference, total, q))),
        },
    )
}

/// The id a complete message is stored under.
pub open spec fn message_id(c: CompleteView) -> Seq<char> {
    uuid_v5_oid_text(identity_text(c))
}

/// Every filled slot of the group holds the batch's record for that part.
pub open spec fn faithful(g: PendingView, s: Seq<IncomingSms>) -> bool {
    forall|q: int|
        0 <= q < g.parts.len() && (#[trigger] g.parts[q]) is Some ==> has_part(
            s,
            g.sender,
            g.reference,
            g.total,
            q,
        ) && g.parts[q] == Some(batch_part(s, g.sender, g.reference, g.total, q))
}

/// Some record of the batch belongs to the group's message.
pub open spec fn keyed(g: PendingView, s: Seq<IncomingSms>) -> bool {
    exists|i: int| 0 <= i < s.len() && #[trigger] in_message(s[i], g.sender, g.reference, g.total)
}

/// The groups of the batch's messages hold only the batch's parts.
pub open spec fn groups_faithful(ps: Seq<PendingView>, s: Seq<IncomingSms>) -> bool {
    forall|k: int| 0 <= k < ps.len() && keyed(#[trigger] ps[k], s) ==> faithful(ps[k], s)
}

proof fn lemma_batch_part_is(s: Seq<IncomingSms>, i: int, q: int)
    requires
        parts_consistent(s),
        0 <= i < s.len(),
        s[i].concatenation matches Some(c) && c.sequence == q + 1,
    ensures
        ({
            let c = s[i].concatenation.unwrap();
            &&& has_part(s, s[i].sender@, c.reference, c.total, q)
            &&& batch_part(s, s[i].sender@, c.reference, c.total, q) == s[i]
        }),
{
    let c = s[i].concatenation.unwrap();
    assert(is_part(s[i], s[i].sender@, c.reference, c.total, q));
    let w = choose|w: int| 0 <= w < s.len() && #[trigger] is_part(s[w], s[i].sender@, c.reference, c.total, q);
    assert(same_part(s[w], s[i]));
}

/// A full group that holds only the batch's parts assembles into the batch's
/// message, and the batch holds every part of it.
proof fn lemma_full_group_is_batch_message(g: PendingView, s: Seq<IncomingSms>)
    requires
        faithful(g, s),
        all_filled(g.parts),
        g.parts.len() == g.total as nat,
    ensures
        assembled(g) == batch_message(s, g.sender, g.reference, g.total),
        complete_in(s, g.sender, g.reference, g.total),
{
    let parts = Seq::new(g.total as nat, |q: int| Some(batch_part(s, g.sender, g.reference, g.total, q)));
    assert forall|q: int| 0 <= q < g.parts.len() implies #[trigger] g.parts[q] == parts[q] by {
        assert(g.parts[q] is Some);
    }
    assert(g.parts =~= parts);
    assert forall|q: int| 0 <= q < g.total implies #[trigger] has_part(s, g.sender, g.reference, g.total, q) by {
        assert(g.parts[q] is Some);
    }
}

/// Expiry keeps every group that is still fresh.
proof fn lemma_keep_fresh_keeps(ps: Seq<PendingView>, now: u64, j: int)
    requires
        0 <= j < ps.len(),
        is_fresh(ps[j], now),
    ensures
        keep_fresh(ps, now).contains(ps[j]),
    decreases ps.len(),
{
    let rest = keep_fresh(ps.drop_last(), now);
    if j == ps.len() - 1 {
        assert(keep_fresh(ps, now) == rest.push(ps.last()));
        assert(keep_fresh(ps, now)[rest.len() as int] == ps[j]);
    } else {
        assert(ps.drop_last()[j] == ps[j]);
        lemma_keep_fresh_keeps(ps.drop_last(), now, j);
        let w = choose|w: int| 0 <= w < rest.len() && rest[w] == ps[j];
        if is_fresh(ps.last(), now) {
            assert(keep_fresh(ps, now)[w] == ps[j]);
        } else {
            assert(keep_fresh(ps, now)[w] == ps[j]);
        }
    }
}

/// Where keys are distinct, the search finds the one group with the key.
proof fn lemma_find_unique(ps: Seq<PendingView>, j: int, i: int)
    requires
        groups_well_formed(ps),
        0 <= i <= j < ps.len(),
    ensures
        find_group_from(ps, ps[j].sender, ps[j].reference, ps[j].total, i) == Some(j),
    decreases j - i,
{
    if i < j {
        assert(distinct_keys(ps[i], ps[j]));
        lemma_find_unique(ps, j, i + 1);
    }
}

/// A push of a record of the batch keeps the batch's groups faithful; a
/// multipart message it completes is the batch's message, whose every part
/// the batch holds.
#[verifier::spinoff_prover]
proof fn lemma_push_step_faithful(ps: Seq<PendingView>, s: Seq<IncomingSms>, i: int, now: u64)
    requires
        groups_well_formed(ps),
        groups_faithful(ps, s),
        parts_consistent(s),
        metadata_valid(s),
        0 <= i < s.len(),
    ensures
        groups_faithful(push_step(ps, s[i], now).0, s),
        push_step(ps, s[i], now).1 is Ok,
        s[i].concatenation is None ==> push_step(ps, s[i], now).1 == Ok::<
            Option<CompleteView>,
            Seq<char>,
        >(Some(single_part(s[i]))),
        s[i].concatenation matches Some(c) ==> (push_step(ps, s[i], now).1 matches Ok(Some(m))
            ==> m == batch_message(s, s[i].sender@, c.reference, c.total) && complete_in(
            s,
            s[i].sender@,
            c.reference,
            c.total,
        )),
{
    let incoming = s[i];
    let fresh = keep_fresh(ps, now);
    lemma_keep_fresh_subset(ps, now);
    lemma_keep_fresh_well_formed(ps, now);
    assert(groups_faithful(fresh, s)) by {
        assert forall|k: int| 0 <= k < fresh.len() && keyed(#[trigger] fresh[k], s) implies faithful(
            fresh[k],
            s,
        ) by {
            assert(ps.contains(fresh[k]));
            let w = choose|w: int| 0 <= w < ps.len() && ps[w] == fresh[k];
            assert(keyed(ps[w], s));
        }
    }
    match incoming.concatenation {
        None => {},
        Some(c) => {
            assert(valid_concatenation(c));
            let q = c.sequence - 1;
            let (filed, k) = file_part(fresh, incoming, c, now);
            let found = find_group_from(fresh, incoming.sender@, c.reference, c.total, 0);
            lemma_find_group_from(fresh, incoming.sender@, c.reference, c.total, 0);
            lemma_batch_part_is(s, i, q);
            assert(in_message(s[i], incoming.sender@, c.reference, c.total));
            assert(keyed(filed[k], s));
            assert(faithful(filed[k], s)) by {
                if found is None {
                    assert forall|p: int|
                        0 <= p < filed[k].parts.len() && (#[trigger] filed[k].parts[p]) is Some implies has_part(
                        s,
                        filed[k].sender,
                        filed[k].reference,
                        filed[k].total,
                        p,
                    ) && filed[k].parts[p] == Some(
                        batch_part(s, filed[k].sender, filed[k].reference, filed[k].total, p),
                    ) by {
                        assert(p == q);
                    }
                } else {
                    assert(keyed(fresh[k], s));
                    assert(faithful(fresh[k], s));
                    assert forall|p: int|
                        0 <= p < filed[k].parts.len() && (#[trigger] filed[k].parts[p]) is Some implies has_part(
                        s,
                        filed[k].sender,
                        filed[k].reference,
                        filed[k].total,
                        p,
                    ) && filed[k].parts[p] == Some(
                        batch_part(s, filed[k].sender, filed[k].reference, filed[k].total, p),
                    ) by {
                        if p != q {
                            assert(filed[k].parts[p] == fresh[k].parts[p]);
                        }
                    }
                }
            }
            assert(groups_faithful(filed, s)) by {
                assert forall|j: int| 0 <= j < filed.len() && keyed(#[trigger] filed[j], s) implies faithful(
                    filed[j],
                    s,
                ) by {
                    if j != k {
                        assert(filed[j] == fresh[j]);
                    }
                }
            }
            if all_filled(filed[k].parts) {
                if found is None {
                    assert(filed[k].parts.len() == c.total as nat);
                } else {
                    assert(fresh[k].parts.len() == fresh[k].total as nat);
                }
                lemma_full_group_is_batch_message(filed[k], s);
                let removed = filed.remove(k);
                assert forall|j: int| 0 <= j < removed.len() && keyed(#[trigger] removed[j], s) implies faithful(
                    removed[j],
                    s,
                ) by {
                    let j2 = if j < k {
                        j
                    } else {
                        j + 1
                    };
                    assert(removed[j] == filed[j2]);
                }
            }
        },
    }
}

// ---------------------------------------------------------------------------
// Polls of the batch.
// ---------------------------------------------------------------------------

/// Every message of the batch is stored: each single-part record, and each
/// multipart message whose every part the batch holds.
pub open spec fn batch_stored(msgs: Seq<SmsView>, s: Seq<IncomingSms>) -> bool {
    forall|i: int|
        0 <= i < s.len() ==> match (#[trigger] s[i]).concatenation {
            None => has_message_id(msgs, message_id(single_part(s[i]))),
            Some(c) => complete_in(s, s[i].sender@, c.reference, c.total) ==> has_message_id(
                msgs,
                message_id(batch_message(s, s[i].sender@, c.reference, c.total)),
            ),
        }
}

proof fn lemma_stored_id(c: CompleteView, t: Seq<char>)
    ensures
        stored_view(c, t).id == message_id(c),
{
}

proof fn lemma_id_kept(msgs: Seq<SmsView>, v: SmsView, id: Seq<char>)
    ensures
        has_message_id(seq![v] + msgs, v.id),
        has_message_id(msgs, id) ==> has_message_id(seq![v] + msgs, id),
{
    let grown = seq![v] + msgs;
    assert(grown[0] == v);
    if has_message_id(msgs, id) {
        let k = choose|k: int| 0 <= k < msgs.len() && #[trigger] msgs[k].id == id;
        assert(grown[k + 1] == msgs[k]);
    }
}

proof fn lemma_rest_of(s: Seq<IncomingSms>, n: int)
    requires
        0 <= n < s.len(),
    ensures
        s.subrange(n, s.len() as int)[0] == s[n],
        s.subrange(n, s.len() as int).drop_first() =~= s.subrange(n + 1, s.len() as int),
        s.subrange(n, s.len() as int).len() > 0,
{
}

/// A poll of the batch's records never fails, and keeps the groups well formed
/// and the batch's groups faithful.
pub proof fn lemma_poll_keeps_faithful(
    ps: Seq<PendingView>,
    msgs: Seq<SmsView>,
    inserted: bool,
    s: Seq<IncomingSms>,
    n: int,
    now: u64,
    clock: Seq<char>,
)
    requires
        groups_well_formed(ps),
        groups_faithful(ps, s),
        parts_consistent(s),
        metadata_valid(s),
        0 <= n <= s.len(),
    ensures
        ({
            let (p, m, r) = poll_fold(ps, msgs, inserted, s.subrange(n, s.len() as int), now, clock);
            groups_well_formed(p) && groups_faithful(p, s) && r is Ok
        }),
    decreases s.len() - n,
{
    if n < s.len() {
        lemma_rest_of(s, n);
        lemma_push_step_faithful(ps, s, n, now);
        lemma_push_step_well_formed(ps, s[n], now);
        let (after, r) = push_step(ps, s[n], now);
        match r {
            Err(_) => {},
            Ok(None) => {
                lemma_poll_keeps_faithful(after, msgs, inserted, s, n + 1, now, clock);
            },
            Ok(Some(c)) => {
                let v = stored_view(c, stored_time(c, clock));
                lemma_poll_keeps_faithful(after, msgs, inserted, s, n + 1, now, clock);
                lemma_poll_keeps_faithful(after, seq![v] + msgs, true, s, n + 1, now, clock);
            },
        }
    } else {
        assert(s.subrange(n, s.len() as int).len() == 0);
    }
}

/// A poll of records of the batch whose messages are stored already stores
/// nothing and reports that nothing was stored.
pub proof fn lemma_repoll_stores_nothing(
    ps: Seq<PendingView>,
    msgs: Seq<SmsView>,
    inserted: bool,
    s: Seq<IncomingSms>,
    n: int,
    now: u64,
    clock: Seq<char>,
)
    requires
        groups_well_formed(ps),
        groups_faithful(ps, s),
        parts_consistent(s),
        metadata_valid(s),
        0 <= n <= s.len(),
        batch_stored(msgs, s),
    ensures
        poll_fold(ps, msgs, inserted, s.subrange(n, s.len() as int), now, clock).1 == msgs,
        poll_fold(ps, msgs, inserted, s.subrange(n, s.len() as int), now, clock).2 == Ok::<
            bool,
            Seq<char>,
        >(inserted),
    decreases s.len() - n,
{
    if n < s.len() {
        lemma_rest_of(s, n);
        lemma_push_step_faithful(ps, s, n, now);
        lemma_push_step_well_formed(ps, s[n], now);
        let (after, r) = push_step(ps, s[n], now);
        match r {
            Err(_) => {},
            Ok(None) => {},
            Ok(Some(c)) => {
                lemma_stored_id(c, stored_time(c, clock));
                assert(has_message_id(msgs, message_id(c))) by {
                    match s[n].concatenation {
                        None => {},
                        Some(cc) => {},
                    }
                }
            },
        }
        lemma_repoll_stores_nothing(after, msgs, inserted, s, n + 1, now, clock);
    } else {
        assert(s.subrange(n, s.len() as int).len() == 0);
    }
}

/// A poll stores a single-part record of the batch that it reaches, and keeps
/// what was stored.
pub proof fn lemma_poll_stores_single(
    ps: Seq<PendingView>,
    msgs: Seq<SmsView>,
    inserted: bool,
    s: Seq<IncomingSms>,
    n: int,
    now: u64,
    clock: Seq<char>,
    t: int,
)
    requires
        groups_well_formed(ps),
        groups_faithful(ps, s),
        parts_consistent(s),
        metadata_valid(s),
        0 <= n <= s.len(),
        0 <= t < s.len(),
        s[t].concatenation is None,
        n <= t || has_message_id(msgs, message_id(single_part(s[t]))),
    ensures
        has_message_id(
            poll_fold(ps, msgs, inserted, s.subrange(n, s.len() as int), now, clock).1,
            message_id(single_part(s[t])),
        ),
    decreases s.len() - n,
{
    let id = message_id(single_part(s[t]));
    if n < s.len() {
        lemma_rest_of(s, n);
        lemma_push_step_faithful(ps, s, n, now);
        lemma_push_step_well_formed(ps, s[n], now);
        let (after, r) = push_step(ps, s[n], now);
        match r {
            Err(_) => {},
            Ok(None) => {
                lemma_poll_stores_single(after, msgs, inserted, s, n + 1, now, clock, t);
            },
            Ok(Some(c)) => {
                let v = stored_view(c, stored_time(c, clock));
                lemma_stored_id(c, stored_time(c, clock));
                lemma_id_kept(msgs, v, id);
                if has_message_id(msgs, v.id) {
                    lemma_poll_stores_single(after, msgs, inserted, s, n + 1, now, clock, t);
                } else {
                    lemma_poll_stores_single(after, seq![v] + msgs, true, s, n + 1, now, clock, t);
                }
            },
        }
    } else {
        assert(s.subrange(n, s.len() as int).len() == 0);
    }
}

/// Part `q + 1` of the message is among the first `n` records.
pub open spec fn seen(s: Seq<IncomingSms>, n: int, sender: Seq<char>, reference: u16, total: u8, q: int) -> bool {
    exists|i: int| 0 <= i < n && #[trigger] is_part(s[i], sender, reference, total, q)
}

/// How far the first poll has come with the message (sender, reference,
/// total): no part read yet and no group for it, or one fresh group, not yet
/// full, that holds every part read so far.
pub open spec fn gathering(
    ps: Seq<PendingView>,
    s: Seq<IncomingSms>,
    n: int,
    sender: Seq<char>,
    reference: u16,
    total: u8,
    now: u64,
) -> bool {
    ||| {
        &&& forall|q: int| 0 <= q < total ==> !#[trigger] seen(s, n, sender, reference, total, q)
        &&& forall|j: int| 0 <= j < ps.len() ==> !same_group(#[trigger] ps[j], sender, reference, total)
    }
    ||| exists|j: int|
        0 <= j < ps.len() && #[trigger] gathered_in(ps[j], s, n, sender, reference, total, now)
}

pub open spec fn gathered_in(
    g: PendingView,
    s: Seq<IncomingSms>,
    n: int,
    sender: Seq<char>,
    reference: u16,
    total: u8,
    now: u64,
) -> bool {
    &&& same_group(g, sender, reference, total)
    &&& g.created_at_ms == now
    &&& !all_filled(g.parts)
    &&& forall|q: int| 0 <= q < total && #[trigger] seen(s, n, sender, reference, total, q) ==> g.parts[q] is Some
}

proof fn lemma_seen_step(s: Seq<IncomingSms>, n: int, sender: Seq<char>, reference: u16, total: u8, q: int)
    requires
        0 <= n < s.len(),
    ensures
        seen(s, n + 1, sender, reference, total, q) == (seen(s, n, sender, reference, total, q)
            || is_part(s[n], sender, reference, total, q)),
{
    if seen(s, n + 1, sender, reference, total, q) && !is_part(s[n], sender, reference, total, q) {
        let i = choose|i: int| 0 <= i < n + 1 && #[trigger] is_part(s[i], sender, reference, total, q);
        assert(i < n);
    }
    if is_part(s[n], sender, reference, total, q) {
        assert(0 <= n < n + 1);
    }
    if seen(s, n, sender, reference, total, q) {
        let i = choose|i: int| 0 <= i < n && #[trigger] is_part(s[i], sender, reference, total, q);
        assert(0 <= i < n + 1);
    }
}

/// One push of the first poll keeps track of the message: either it
/// completes it, or the groups after the push still gather it.
#[verifier::spinoff_prover]
proof fn lemma_gathering_step(
    ps: Seq<PendingView>,
    s: Seq<IncomingSms>,
    n: int,
    sender: Seq<char>,
    reference: u16,
    total: u8,
    now: u64,
)
    requires
        groups_well_formed(ps),
        groups_faithful(ps, s),
        parts_consistent(s),
        metadata_valid(s),
        0 <= n < s.len(),
        gathering(ps, s, n, sender, reference, total, now),
    ensures
        ({
            let (after, r) = push_step(ps, s[n], now);
            ||| (in_message(s[n], sender, reference, total) && r == Ok::<Option<CompleteView>, Seq<char>>(
                Some(batch_message(s, sender, reference, total)),
            ))
            ||| gathering(after, s, n + 1, sender, reference, total, now)
        }),
{
    let incoming = s[n];
    let fresh = keep_fresh(ps, now);
    let (after, r) = push_step(ps, incoming, now);
    lemma_keep_fresh_subset(ps, now);
    lemma_keep_fresh_well_formed(ps, now);
    lemma_push_step_faithful(ps, s, n, now);
    assert forall|q: int| #![trigger seen(s, n + 1, sender, reference, total, q)]
        seen(s, n + 1, sender, reference, total, q) == (seen(s, n, sender, reference, total, q)
            || is_part(incoming, sender, reference, total, q)) by {
        lemma_seen_step(s, n, sender, reference, total, q);
    }
    // Where the message's group stands in the fresh groups, if there is one.
    let old_group: Option<int> = if exists|j: int|
        0 <= j < ps.len() && #[trigger] gathered_in(ps[j], s, n, sender, reference, total, now) {
        let j = choose|j: int|
            0 <= j < ps.len() && #[trigger] gathered_in(ps[j], s, n, sender, reference, total, now);
        assert(is_fresh(ps[j], now));
        lemma_keep_fresh_keeps(ps, now, j);
        let w = choose|w: int| 0 <= w < fresh.len() && fresh[w] == ps[j];
        Some(w)
    } else {
        None
    };
    assert(old_group is None ==> forall|j: int|
        0 <= j < fresh.len() ==> !same_group(#[trigger] fresh[j], sender, reference, total)) by {
        if old_group is None {
            assert forall|j: int| 0 <= j < fresh.len() implies !same_group(
                #[trigger] fresh[j],
                sender,
                reference,
                total,
            ) by {
                assert(ps.contains(fresh[j]));
                let w = choose|w: int| 0 <= w < ps.len() && ps[w] == fresh[j];
                assert(!same_group(ps[w], sender, reference, total));
            }
        }
    }
    match incoming.concatenation {
        None => {
            assert forall|q: int| !is_part(incoming, sender, reference, total, q) by {}
            match old_group {
                Some(w) => {
                    assert(gathered_in(after[w], s, n + 1, sender, reference, total, now));
                },
                None => {},
            }
        },
        Some(c) => {
            assert(valid_concatenation(c));
            let (filed, k) = file_part(fresh, incoming, c, now);
            let found = find_group_from(fresh, incoming.sender@, c.reference, c.total, 0);
            lemma_find_group_from(fresh, incoming.sender@, c.reference, c.total, 0);
            let mine = in_message(incoming, sender, reference, total);
            if !mine {
                assert forall|q: int| !is_part(incoming, sender, reference, total, q) by {}
                // The pushed part files elsewhere; the message's group is untouched.
                match old_group {
                    Some(w) => {
                        assert(w != k) by {
                            if found is Some {
                                assert(same_group(fresh[k], incoming.sender@, c.reference, c.total));
                            }
                        }
                        assert(filed[w] == fresh[w]);
                        if all_filled(filed[k].parts) {
                            let removed = filed.remove(k);
                            let w2 = if w < k {
                                w
                            } else {
                                w - 1
                            };
                            assert(removed[w2] == filed[w]);
                            assert(gathered_in(removed[w2], s, n + 1, sender, reference, total, now));
                        } else {
                            assert(gathered_in(filed[w], s, n + 1, sender, reference, total, now));
                        }
                    },
                    None => {
                        assert forall|j: int| 0 <= j < after.len() implies !same_group(
                            #[trigger] after[j],
                            sender,
                            reference,
                            total,
                        ) by {
                            if all_filled(filed[k].parts) {
                                let j2 = if j < k {
                                    j
                                } else {
                                    j + 1
                                };
                                assert(after[j] == filed[j2]);
                                if j2 != k {
                                    assert(filed[j2].sender == fresh[j2].sender && filed[j2].reference
                                        == fresh[j2].reference && filed[j2].total == fresh[j2].total);
                                }
                            } else {
                                if j != k {
                                    assert(filed[j].sender == fresh[j].sender && filed[j].reference
                                        == fresh[j].reference && filed[j].total == fresh[j].total);
                                }
                            }
                        }
                    },
                }
            } else {
                let q0 = c.sequence - 1;
                assert(is_part(incoming, sender, reference, total, q0));
                match old_group {
                    Some(w) => {
                        lemma_find_unique(fresh, w, 0);
                        assert(found == Some(w));
                        assert(k == w);
                    },
                    None => {
                        lemma_find_group_none(fresh, incoming.sender@, c.reference, c.total, 0);
                        assert(found is None) by {
                            if found is Some {
                                let f = found.unwrap();
                                assert(same_group(fresh[f], sender, reference, total));
                            }
                        }
                    },
                }
                if all_filled(filed[k].parts) {
                } else {
                    assert(filed[k].parts[q0] is Some);
                    assert forall|q: int|
                        0 <= q < total && #[trigger] seen(s, n + 1, sender, reference, total, q) implies filed[k].parts[q] is Some by {
                        if q != q0 {
                            assert(!is_part(incoming, sender, reference, total, q));
                            assert(seen(s, n, sender, reference, total, q));
                            match old_group {
                                Some(w) => {
                                    assert(gathered_in(fresh[w], s, n, sender, reference, total, now));
                                    assert(filed[k].parts[q] == fresh[w].parts[q]);
                                },
                                None => {
                                    assert(gathering(ps, s, n, sender, reference, total, now));
                                    assert(!(exists|j: int|
                                        0 <= j < ps.len() && #[trigger] gathered_in(
                                            ps[j],
                                            s,
                                            n,
                                            sender,
                                            reference,
                                            total,
                                            now,
                                        )));
                                },
                            }
                        }
                    }
                    assert(gathered_in(after[k], s, n + 1, sender, reference, total, now));
                }
            }
        },
    }
}

proof fn lemma_all_seen(s: Seq<IncomingSms>, sender: Seq<char>, reference: u16, total: u8, q: int)
    requires
        complete_in(s, sender, reference, total),
        0 <= q < total,
    ensures
        seen(s, s.len() as int, sender, reference, total, q),
{
    assert(has_part(s, sender, reference, total, q));
    let i = choose|i: int| 0 <= i < s.len() && #[trigger] is_part(s[i], sender, reference, total, q);
    assert(0 <= i < s.len());
}

/// The first poll of a batch stores every multipart message whose every part
/// the batch holds.
pub proof fn lemma_poll_stores_complete(
    ps: Seq<PendingView>,
    msgs: Seq<SmsView>,
    inserted: bool,
    s: Seq<IncomingSms>,
    n: int,
    now: u64,
    clock: Seq<char>,
    sender: Seq<char>,
    reference: u16,
    total: u8,
)
    requires
        groups_well_formed(ps),
        groups_faithful(ps, s),
        parts_consistent(s),
        metadata_valid(s),
        0 <= n <= s.len(),
        total >= 1,
        complete_in(s, sender, reference, total),
        has_message_id(msgs, message_id(batch_message(s, sender, reference, total))) || gathering(
            ps,
            s,
            n,
            sender,
            reference,
            total,
            now,
        ),
    ensures
        has_message_id(
            poll_fold(ps, msgs, inserted, s.subrange(n, s.len() as int), now, clock).1,
            message_id(batch_message(s, sender, reference, total)),
        ),
    decreases s.len() - n,
{
    let id = message_id(batch_message(s, sender, reference, total));
    if n < s.len() {
        lemma_rest_of(s, n);
        lemma_push_step_faithful(ps, s, n, now);
        lemma_push_step_well_formed(ps, s[n], now);
        let (after, r) = push_step(ps, s[n], now);
        if !has_message_id(msgs, id) {
            lemma_gathering_step(ps, s, n, sender, reference, total, now);
        }
        match r {
            Err(_) => {},
            Ok(None) => {
                lemma_poll_stores_complete(after, msgs, inserted, s, n + 1, now, clock, sender, reference, total);
            },
            Ok(Some(c)) => {
                let v = stored_view(c, stored_time(c, clock));
                lemma_stored_id(c, stored_time(c, clock));
                lemma_id_kept(msgs, v, id);
                if has_message_id(msgs, v.id) {
                    lemma_poll_stores_complete(after, msgs, inserted, s, n + 1, now, clock, sender, reference, total);
                } else {
                    lemma_poll_stores_complete(
                        after,
                        seq![v] + msgs,
                        true,
                        s,
                        n + 1,
                        now,
                        clock,
                        sender,
                        reference,
                        total,
                    );
                }
            },
        }
    } else {
        assert(s.subrange(n, s.len() as int).len() == 0);
        if !has_message_id(msgs, id) {
            lemma_all_seen(s, sender, reference, total, 0);
            assert(n == s.len());
            if exists|j: int| 0 <= j < ps.len() && #[trigger] gathered_in(ps[j], s, n, sender, reference, total, now) {
                let j = choose|j: int|
                    0 <= j < ps.len() && #[trigger] gathered_in(ps[j], s, n, sender, reference, total, now);
                assert(ps[j].parts.len() == ps[j].total as nat);
                assert forall|q: int| 0 <= q < ps[j].parts.len() implies (#[trigger] ps[j].parts[q]) is Some by {
                    lemma_all_seen(s, sender, reference, total, q);
                }
                assert(all_filled(ps[j].parts));
            }
        }
    }
}

/// Polling the same batch of records twice stores nothing the second time,
/// multipart messages included: the second poll leaves the stored list as the
/// first left it and reports that nothing was stored.
///
/// It holds where every multipart record has valid sequence metadata, where
/// records that claim the same part of the same message are the same record,
/// and where no group pending before the first poll belongs to a message of
/// the batch; and while the list stays within `MESSAGE_LIMIT`, so that the cap
/// drops none of it. Each condition is needed:
/// - two different records for part 2 of a two-part message, in the batch
///   [part 1 "x", part 2 "w", part 2 "v"]: the first poll stores "xw" and
///   keeps "v" pending, the second completes and stores "xv";
/// - part 1 "z" pending before the batch [part 2 "w", part 1 "x"]: the first
///   poll stores "zw" and keeps "x" pending, the second stores "xw";
/// - a batch of `MESSAGE_LIMIT + 1` new messages: the cap drops the oldest
///   after the first poll, and the second poll stores it again.
pub proof fn lemma_repeated_multipart_poll_adds_nothing(
    pending: Seq<PendingView>,
    msgs: Seq<SmsView>,
    incoming: Seq<IncomingSms>,
    now1: u64,
    clock1: Seq<char>,
    now2: u64,
    clock2: Seq<char>,
)
    requires
        groups_well_formed(pending),
        metadata_valid(incoming),
        parts_consistent(incoming),
        forall|k: int| 0 <= k < pending.len() ==> !keyed(#[trigger] pending[k], incoming),
        poll_fold(pending, msgs, false, incoming, now1, clock1).1.len() <= MESSAGE_LIMIT,
    ensures
        ({
            let (p1, m1, r1) = poll_fold(pending, msgs, false, incoming, now1, clock1);
            let (p2, m2, r2) = poll_fold(p1, capped(m1), false, incoming, now2, clock2);
            &&& r1 is Ok
            &&& m2 == capped(m1)
            &&& r2 == Ok::<bool, Seq<char>>(false)
        }),
{
    let s = incoming;
    assert(s.subrange(0, s.len() as int) =~= s);
    assert(groups_faithful(pending, s));
    lemma_poll_keeps_faithful(pending, msgs, false, s, 0, now1, clock1);
    let (p1, m1, r1) = poll_fold(pending, msgs, false, s, now1, clock1);
    assert(batch_stored(m1, s)) by {
        assert forall|i: int| 0 <= i < s.len() implies match (#[trigger] s[i]).concatenation {
            None => has_message_id(m1, message_id(single_part(s[i]))),
            Some(c) => complete_in(s, s[i].sender@, c.reference, c.total) ==> has_message_id(
                m1,
                message_id(batch_message(s, s[i].sender@, c.reference, c.total)),
            ),
        } by {
            match s[i].concatenation {
                None => {
                    lemma_poll_stores_single(pending, msgs, false, s, 0, now1, clock1, i);
                },
                Some(c) => {
                    if complete_in(s, s[i].sender@, c.reference, c.total) {
                        assert(valid_concatenation(c));
                        assert forall|q: int| 0 <= q < c.total implies !#[trigger] seen(
                            s,
                            0,
                            s[i].sender@,
                            c.reference,
                            c.total,
                            q,
                        ) by {}
                        assert forall|j: int| 0 <= j < pending.len() implies !same_group(
                            #[trigger] pending[j],
                            s[i].sender@,
                            c.reference,
                            c.total,
                        ) by {
                            assert(!keyed(pending[j], s));
                            if same_group(pending[j], s[i].sender@, c.reference, c.total) {
                                assert(in_message(s[i], pending[j].sender, pending[j].reference, pending[j].total));
                            }
                        }
                        lemma_poll_stores_complete(
                            pending,
                            msgs,
                            false,
                            s,
                            0,
                            now1,
                            clock1,
                            s[i].sender@,
                            c.reference,
                            c.total,
                        );
                    }
                },
            }
        }
    }
    assert(capped(m1) == m1);
    lemma_repoll_stores_nothing(p1, m1, false, s, 0, now2, clock2);
}

/// The same law for the application state: after two polls of a device that
/// read the same batch, the first succeeds, and the second stores nothing,
/// reports that nothing was stored and leaves the messages as the first left
/// them. It holds under the conditions of
/// `lemma_repeated_multipart_poll_adds_nothing`.
pub proof fn lemma_state_repoll_adds_nothing(
    s0: AppState,
    s1: AppState,
    s2: AppState,
    device_id: Seq<char>,
    poll: AtPoll,
    now1: u64,
    clock1: Seq<char>,
    now2: u64,
    clock2: Seq<char>,
    r1: Result<bool, String>,
    r2: Result<bool, String>,
)
    requires
        s0.well_formed(),
        poll_applied(s0, s1, device_id, poll, now1, clock1, r1),
        poll_applied(s1, s2, device_id, poll, now2, clock2, r2),
        metadata_valid(poll.messages@),
        parts_consistent(poll.messages@),
        forall|k: int| 0 <= k < s0.pending().len() ==> !keyed(#[trigger] s0.pending()[k], poll.messages@),
        poll_fold(s0.pending(), sms_views(s0.stored()), false, poll.messages@, now1, clock1).1.len()
            <= MESSAGE_LIMIT,
    ensures
        r1 is Ok,
        r2 == Ok::<bool, String>(false),
        sms_views(s2.stored()) == sms_views(s1.stored()),
{
    s0.lemma_pending_well_formed();
    lemma_repeated_multipart_poll_adds_nothing(
        s0.pending(),
        sms_views(s0.stored()),
        poll.messages@,
        now1,
        clock1,
        now2,
        clock2,
    );
    let (p1, m1, o1) = poll_fold(s0.pending(), sms_views(s0.stored()), false, poll.messages@, now1, clock1);
    assert(capped(m1) == m1);
    let (p2, m2, o2) = poll_fold(p1, capped(m1), false, poll.messages@, now2, clock2);
    assert(capped(m2) == m2);
}

} // verus!
