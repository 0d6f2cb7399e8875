//! Unified inbox ingestion: multipart assembly, message identity,
//! verification-code extraction and local categorisation.

use std::time::Instant;

use vstd::prelude::*;

use crate::ids::{uuid_v5_oid, uuid_v5_oid_text};
use crate::model::SmsMessage;
use crate::sms::pdu::Concatenation;
use crate::text::{
    append_chars, append_str, chars_of, contains, contains_str, is_ascii_digit, join, join_chars,
    str_to_string, string_of, sub_chars, to_lowercase, unicode_lowercase, views_of,
};
use crate::time::{canonical_rfc3339, instant_now, millis_since, now_rfc3339, rfc3339_canonical};

verus! {

/// How long an incomplete multipart group waits for its missing parts (12 hours).
pub const PART_TTL_MILLIS: u64 = 43_200_000;

/// One SMS as a provider reported it, possibly a part of a longer message.
#[derive(Debug, Clone)]
pub struct IncomingSms {
    pub source_key: String,
    pub sender: String,
    pub body: String,
    pub received_at: Option<String>,
    pub concatenation: Option<Concatenation>,
}

/// The text of a received SMS as the contracts see it.
pub struct IncomingView {
    pub source_key: Seq<char>,
    pub sender: Seq<char>,
    pub body: Seq<char>,
    pub received_at: Option<Seq<char>>,
    pub concatenation: Option<Concatenation>,
}

impl View for IncomingSms {
    type V = IncomingView;

    open spec fn view(&self) -> IncomingView {
        IncomingView {
            source_key: self.source_key@,
            sender: self.sender@,
            body: self.body@,
            received_at: opt_view(self.received_at),
            concatenation: self.concatenation,
        }
    }
}

/// A whole message: a single-part SMS or all parts of a multipart one, joined.
#[derive(Debug, Clone, PartialEq, Eq)]
pub struct CompleteSms {
    pub source_key: String,
    pub sender: String,
    pub body: String,
    pub received_at: Option<String>,
}

pub open spec fn opt_view(o: Option<String>) -> Option<Seq<char>> {
    match o {
        Some(s) => Some(s@),
        None => None,
    }
}

/// The text of a complete message.
pub struct CompleteView {
    pub source_key: Seq<char>,
    pub sender: Seq<char>,
    pub body: Seq<char>,
    pub received_at: Option<Seq<char>>,
}

impl View for CompleteSms {
    type V = CompleteView;

    open spec fn view(&self) -> CompleteView {
        CompleteView {
            source_key: self.source_key@,
            sender: self.sender@,
            body: self.body@,
            received_at: opt_view(self.received_at),
        }
    }
}

/// The parts received so far of one multipart message, one slot per sequence number.
pub struct PendingMultipart {
    pub sender: String,
    pub reference: u16,
    pub total: u8,
    pub created_at_ms: u64,
    pub parts: Vec<Option<IncomingSms>>,
}

/// A pending group as the contracts see it.
pub struct PendingView {
    pub sender: Seq<char>,
    pub reference: u16,
    pub total: u8,
    pub created_at_ms: u64,
    pub parts: Seq<Option<IncomingSms>>,
}

impl View for PendingMultipart {
    type V = PendingView;

    open spec fn view(&self) -> PendingView {
        PendingView {
            sender: self.sender@,
            reference: self.reference,
            total: self.total,
            created_at_ms: self.created_at_ms,
            parts: self.parts@,
        }
    }
}

/// Collects the parts of multipart SMS until every part of a group is present.
pub struct MultipartAssembler {
    epoch: Instant,
    pending: Vec<PendingMultipart>,
}

pub open spec fn pending_views(ps: Seq<PendingMultipart>) -> Seq<PendingView> {
    ps.map_values(|p: PendingMultipart| p@)
}

/// A group is still waiting while less than the TTL has passed since its first part.
pub open spec fn is_fresh(p: PendingView, now: u64) -> bool {
    (now as int) < p.created_at_ms + PART_TTL_MILLIS
}

/// The groups that have not expired at `now`, in their order.
pub open spec fn keep_fresh(ps: Seq<PendingView>, now: u64) -> Seq<PendingView>
    decreases ps.len(),
{
    if ps.len() == 0 {
        ps
    } else {
        let rest = keep_fresh(ps.drop_last(), now);
        if is_fresh(ps.last(), now) {
            rest.push(ps.last())
        } else {
            rest
        }
    }
}

pub open spec fn valid_concatenation(c: Concatenation) -> bool {
    c.total != 0 && c.sequence != 0 && c.sequence <= c.total
}

pub open spec fn same_group(p: PendingView, sender: Seq<char>, reference: u16, total: u8) -> bool {
    p.sender == sender && p.reference == reference && p.total == total
}

/// First group at or after `i` with the given key.
pub open spec fn find_group_from(
    ps: Seq<PendingView>,
    sender: Seq<char>,
    reference: u16,
    total: u8,
    i: int,
) -> Option<int>
    decreases ps.len() - i,
{
    if i < 0 || i >= ps.len() {
        None
    } else if same_group(ps[i], sender, reference, total) {
        Some(i)
    } else {
        find_group_from(ps, sender, reference, total, i + 1)
    }
}

pub proof fn lemma_find_group_from(
    ps: Seq<PendingView>,
    sender: Seq<char>,
    reference: u16,
    total: u8,
    i: int,
)
    requires
        0 <= i,
    ensures
        find_group_from(ps, sender, reference, total, i) matches Some(k) ==> i <= k < ps.len()
            && same_group(ps[k], sender, reference, total),
    decreases ps.len() - i,
{
    if i < ps.len() && !same_group(ps[i], sender, reference, total) {
        lemma_find_group_from(ps, sender, reference, total, i + 1);
    }
}

pub open spec fn none_slots(n: nat) -> Seq<Option<IncomingSms>> {
    Seq::new(n, |i: int| None)
}

/// The groups after `incoming` (part `c.sequence` of `c.total`) is filed,
/// and the position of its group.
pub open spec fn file_part(ps: Seq<PendingView>, incoming: IncomingSms, c: Concatenation, now: u64) -> (
    Seq<PendingView>,
    int,
) {
    let slot = c.sequence - 1;
    match find_group_from(ps, incoming.sender@, c.reference, c.total, 0) {
        Some(k) => (
            ps.update(
                k,
                PendingView { parts: ps[k].parts.update(slot, Some(incoming)), ..ps[k] },
            ),
            k,
        ),
        None => (
            ps.push(
                PendingView {
                    sender: incoming.sender@,
                    reference: c.reference,
                    total: c.total,
                    created_at_ms: now,
                    parts: none_slots(c.total as nat).update(slot, Some(incoming)),
                },
            ),
            ps.len() as int,
        ),
    }
}

pub open spec fn all_filled(parts: Seq<Option<IncomingSms>>) -> bool {
    forall|i: int| 0 <= i < parts.len() ==> (#[trigger] parts[i]) is Some
}

pub open spec fn part_sources(parts: Seq<Option<IncomingSms>>) -> Seq<Seq<char>> {
    parts.map_values(|p: Option<IncomingSms>| p.unwrap().source_key@)
}

/// The bodies of the parts, concatenated in sequence order.
pub open spec fn joined_bodies(parts: Seq<Option<IncomingSms>>) -> Seq<char>
    decreases parts.len(),
{
    if parts.len() == 0 {
        Seq::empty()
    } else {
        joined_bodies(parts.drop_last()) + parts.last().unwrap().body@
    }
}

/// The first timestamp that any part carries, in sequence order.
pub open spec fn first_received(parts: Seq<Option<IncomingSms>>) -> Option<Seq<char>>
    decreases parts.len(),
{
    if parts.len() == 0 {
        None
    } else {
        let earlier = first_received(parts.drop_last());
        if earlier is Some {
            earlier
        } else {
            opt_view(parts.last().unwrap().received_at)
        }
    }
}

/// The complete message that the parts of a finished group make.
pub open spec fn assembled(g: PendingView) -> CompleteView {
    CompleteView {
        source_key: join(part_sources(g.parts), "|"@),
        sender: g.sender,
        body: joined_bodies(g.parts),
        received_at: first_received(g.parts),
    }
}

pub open spec fn single_part(incoming: IncomingSms) -> CompleteView {
    CompleteView {
        source_key: incoming.source_key@,
        sender: incoming.sender@,
        body: incoming.body@,
        received_at: opt_view(incoming.received_at),
    }
}

pub open spec fn result_view(r: Result<Option<CompleteSms>, String>) -> Result<
    Option<CompleteView>,
    Seq<char>,
> {
    match r {
        Ok(Some(c)) => Ok(Some(c@)),
        Ok(None) => Ok(None),
        Err(e) => Err(e@),
    }
}

/// What pushing `incoming` at time `now` does: stale groups are dropped first;
/// a single-part SMS comes back at once; invalid sequence metadata is an error;
/// otherwise the part is filed in its group, and a group whose every slot is
/// filled leaves the assembler as one complete message.
pub open spec fn push_outcome(
    before: Seq<PendingView>,
    incoming: IncomingSms,
    now: u64,
    after: Seq<PendingView>,
    r: Result<Option<CompleteView>, Seq<char>>,
) -> bool {
    let fresh = keep_fresh(before, now);
    match incoming.concatenation {
        None => after == fresh && r == Ok::<Option<CompleteView>, Seq<char>>(
            Some(single_part(incoming)),
        ),
        Some(c) => if !valid_concatenation(c) {
            after == fresh && r == Err::<Option<CompleteView>, Seq<char>>(
                "invalid multipart SMS sequence metadata"@,
            )
        } else {
            let (filed, k) = file_part(fresh, incoming, c, now);
            if all_filled(filed[k].parts) {
                after == filed.remove(k) && r == Ok::<Option<CompleteView>, Seq<char>>(
                    Some(assembled(filed[k])),
                )
            } else {
                after == filed && r == Ok::<Option<CompleteView>, Seq<char>>(None)
            }
        },
    }
}

/// Two groups belong to different multipart messages: they differ in sender,
/// reference or part count.
pub open spec fn distinct_keys(a: PendingView, b: PendingView) -> bool {
    !same_group(a, b.sender, b.reference, b.total)
}

/// Every group has one slot per part, and no two groups share a key
/// (sender, reference, part count).
pub open spec fn groups_well_formed(ps: Seq<PendingView>) -> bool {
    &&& forall|k: int|
        0 <= k < ps.len() ==> #[trigger] ps[k].parts.len() == ps[k].total as nat && ps[k].total
            >= 1
    &&& forall|j: int, k: int|
        0 <= j < k < ps.len() ==> distinct_keys(#[trigger] ps[j], #[trigger] ps[k])
}

/// A search that finds no group with this key finds none at or after `i`.
pub proof fn lemma_find_group_none(
    ps: Seq<PendingView>,
    sender: Seq<char>,
    reference: u16,
    total: u8,
    i: int,
)
    requires
        0 <= i,
        find_group_from(ps, sender, reference, total, i) is None,
    ensures
        forall|j: int| i <= j < ps.len() ==> !same_group(#[trigger] ps[j], sender, reference, total),
    decreases ps.len() - i,
{
    if i < ps.len() {
        lemma_find_group_none(ps, sender, reference, total, i + 1);
    }
}

impl Default for MultipartAssembler {
    fn default() -> (a: Self)
        ensures
            a.pending() == Seq::<PendingView>::empty(),
            a.well_formed(),
    {
        MultipartAssembler { epoch: instant_now(), pending: Vec::new() }
    }
}

impl MultipartAssembler {
    /// The groups still waiting for parts.
    pub closed spec fn pending(&self) -> Seq<PendingView> {
        pending_views(self.pending@)
    }

    pub closed spec fn well_formed(&self) -> bool {
        groups_well_formed(self.pending())
    }

    /// A well-formed assembler has one slot per part in each group and at
    /// most one group per multipart message.
    pub proof fn lemma_groups_well_formed(&self)
        requires
            self.well_formed(),
        ensures
            groups_well_formed(self.pending()),
    {
    }

    /// Milliseconds since the assembler was created: the clock that `push` files parts by.
    pub fn elapsed_ms(&self) -> u64 {
        millis_since(&self.epoch)
    }

    /// Adds one received SMS at the current time; see `push_at`.
    pub fn push(&mut self, incoming: IncomingSms) -> (r: Result<Option<CompleteSms>, String>)
        requires
            old(self).well_formed(),
        ensures
            final(self).well_formed(),
            exists|now: u64|
                push_outcome(old(self).pending(), incoming, now, final(self).pending(), result_view(r)),
    {
        let now = millis_since(&self.epoch);
        self.push_at(incoming, now)
    }

    /// Adds one received SMS at `now` milliseconds after the assembler was created.
    pub fn push_at(&mut self, incoming: IncomingSms, now: u64) -> (r: Result<
        Option<CompleteSms>,
        String,
    >)
        requires
            old(self).well_formed(),
        ensures
            final(self).well_formed(),
            push_outcome(old(self).pending(), incoming, now, final(self).pending(), result_view(r)),
    {
        let ghost before = self.pending();
        self.expire_stale_at(now);
        let ghost fresh = self.pending();
        assert(fresh == keep_fresh(before, now));
        let concat = match incoming.concatenation {
            None => {
                let c = CompleteSms {
                    source_key: incoming.source_key,
                    sender: incoming.sender,
                    body: incoming.body,
                    received_at: incoming.received_at,
                };
                return Ok(Some(c));
            },
            Some(c) => c,
        };
        if concat.total == 0 || concat.sequence == 0 || concat.sequence > concat.total {
            return Err(str_to_string("invalid multipart SMS sequence metadata"));
        }
        let slot = (concat.sequence - 1) as usize;
        let ghost inc = incoming;
        let found = self.find_group(&incoming.sender, concat.reference, concat.total);
        let (mut entry, k) = match found {
            Some(k) => {
                let ghost before_remove = self.pending@;
                let e = self.pending.remove(k);
                proof {
                    assert(e == before_remove[k as int]);
                    assert(fresh[k as int] == e@);
                    assert(self.pending() =~= fresh.remove(k as int));
                }
                (e, k)
            },
            None => {
                let mut parts: Vec<Option<IncomingSms>> = Vec::new();
                let mut i: u8 = 0;
                while i < concat.total
                    invariant
                        i <= concat.total,
                        parts@ == none_slots(i as nat),
                    decreases concat.total - i,
                {
                    parts.push(None);
                    assert(parts@ =~= none_slots((i + 1) as nat));
                    i = i + 1;
                }
                let e = PendingMultipart {
                    sender: incoming.sender.clone(),
                    reference: concat.reference,
                    total: concat.total,
                    created_at_ms: now,
                    parts,
                };
                (e, self.pending.len())
            },
        };
        let ghost filed_k = file_part(fresh, inc, concat, now);
        proof {
            lemma_find_group_from(fresh, inc.sender@, concat.reference, concat.total, 0);
            assert(filed_k.1 == k as int);
            if found is None {
                assert(entry@.parts =~= none_slots(concat.total as nat));
            } else {
                assert(entry@ == fresh[k as int]);
                assert(fresh[k as int].parts.len() == fresh[k as int].total as nat);
            }
        }
        entry.parts.set(slot, Some(incoming));
        let ghost filed = filed_k.0;
        proof {
            assert(entry@.parts =~= filed[k as int].parts);
            assert(entry@ == filed[k as int]);
            assert forall|j: int| 0 <= j < filed.len() implies #[trigger] filed[j].parts.len()
                == filed[j].total as nat && filed[j].total >= 1 by {
                if j != k {
                    assert(filed[j] == fresh[j]);
                    assert(fresh[j].parts.len() == fresh[j].total as nat);
                }
            }
            if found is None {
                assert(self.pending() =~= fresh);
                lemma_find_group_none(fresh, inc.sender@, concat.reference, concat.total, 0);
            }
            assert forall|a: int, b: int| 0 <= a < b < filed.len() implies distinct_keys(
                #[trigger] filed[a],
                #[trigger] filed[b],
            ) by {
                if found is None && b == k {
                    assert(filed[a] == fresh[a]);
                    assert(!same_group(fresh[a], inc.sender@, concat.reference, concat.total));
                } else {
                    assert(filed[a].sender == fresh[a].sender && filed[a].reference == fresh[a].reference
                        && filed[a].total == fresh[a].total);
                    assert(filed[b].sender == fresh[b].sender && filed[b].reference == fresh[b].reference
                        && filed[b].total == fresh[b].total);
                }
            }
            let removed = filed.remove(k as int);
            assert forall|a: int, b: int| 0 <= a < b < removed.len() implies distinct_keys(
                #[trigger] removed[a],
                #[trigger] removed[b],
            ) by {
                let a2 = if a < k { a } else { a + 1 };
                let b2 = if b < k { b } else { b + 1 };
                assert(removed[a] == filed[a2] && removed[b] == filed[b2]);
            }
            assert forall|j: int| 0 <= j < removed.len() implies #[trigger] removed[j].parts.len()
                == removed[j].total as nat && removed[j].total >= 1 by {
                let j2 = if j < k { j } else { j + 1 };
                assert(removed[j] == filed[j2]);
                assert(filed[j2].parts.len() == filed[j2].total as nat && filed[j2].total >= 1);
            }
        }
        if !Self::complete(&entry.parts) {
            self.pending.insert(k, entry);
            proof {
                assert(self.pending() =~= filed);
            }
            return Ok(None);
        }
        proof {
            assert(self.pending() =~= filed.remove(k as int));
        }
        let done = Self::assemble(&entry);
        Ok(Some(done))
    }

    fn complete(parts: &Vec<Option<IncomingSms>>) -> (b: bool)
        ensures
            b == all_filled(parts@),
    {
        let mut i: usize = 0;
        while i < parts.len()
            invariant
                0 <= i <= parts.len(),
                forall|j: int| 0 <= j < i ==> (#[trigger] parts@[j]) is Some,
            decreases parts.len() - i,
        {
            if parts[i].is_none() {
                return false;
            }
            i = i + 1;
        }
        true
    }

    fn assemble(entry: &PendingMultipart) -> (c: CompleteSms)
        requires
            all_filled(entry.parts@),
        ensures
            c@ == assembled(entry@),
    {
        let mut sources: Vec<Vec<char>> = Vec::new();
        let mut body: Vec<char> = Vec::new();
        let mut received_at: Option<String> = None;
        let mut i: usize = 0;
        while i < entry.parts.len()
            invariant
                0 <= i <= entry.parts.len(),
                all_filled(entry.parts@),
                views_of(sources@) == part_sources(entry.parts@.take(i as int)),
                body@ == joined_bodies(entry.parts@.take(i as int)),
                opt_view(received_at) == first_received(entry.parts@.take(i as int)),
            decreases entry.parts.len() - i,
        {
            let ghost prefix = entry.parts@.take(i as int);
            let ghost next = entry.parts@.take(i + 1);
            let ghost sources_before = views_of(sources@);
            assert(next.drop_last() =~= prefix);
            assert(next.last() == entry.parts@[i as int]);
            assert(entry.parts@[i as int] is Some);
            match &entry.parts[i] {
                Some(part) => {
                    assert(entry.parts@[i as int] == Some(*part));
                    sources.push(chars_of(part.source_key.as_str()));
                    assert(views_of(sources@) =~= sources_before.push(part.source_key@));
                    assert(part_sources(next) =~= part_sources(prefix).push(part.source_key@));
                    let b = chars_of(part.body.as_str());
                    append_chars(&mut body, &b);
                    if received_at.is_none() {
                        received_at = match &part.received_at {
                            Some(s) => Some(s.clone()),
                            None => None,
                        };
                    }
                },
                None => {},
            }
            assert(views_of(sources@) =~= part_sources(next));
            i = i + 1;
        }
        assert(entry.parts@.take(entry.parts.len() as int) =~= entry.parts@);
        let joined = join_chars(&sources, "|");
        CompleteSms {
            source_key: string_of(&joined),
            sender: entry.sender.clone(),
            body: string_of(&body),
            received_at,
        }
    }

    fn find_group(&self, sender: &String, reference: u16, total: u8) -> (r: Option<usize>)
        ensures
            r matches Some(k) ==> find_group_from(self.pending(), sender@, reference, total, 0)
                == Some(k as int) && k < self.pending@.len(),
            r is None ==> find_group_from(self.pending(), sender@, reference, total, 0) is None,
    {
        let mut i: usize = 0;
        while i < self.pending.len()
            invariant
                0 <= i <= self.pending.len(),
                find_group_from(self.pending(), sender@, reference, total, 0) == find_group_from(
                    self.pending(),
                    sender@,
                    reference,
                    total,
                    i as int,
                ),
            decreases self.pending.len() - i,
        {
            let p = &self.pending[i];
            assert(self.pending()[i as int] == p@);
            if p.sender == *sender && p.reference == reference && p.total == total {
                return Some(i);
            }
            i = i + 1;
        }
        None
    }

    /// Drops the groups whose first part arrived a TTL or more before `now`.
    fn expire_stale_at(&mut self, now: u64)
        requires
            old(self).well_formed(),
        ensures
            final(self).pending() == keep_fresh(old(self).pending(), now),
            final(self).well_formed(),
    {
        let ghost orig = self.pending();
        let mut rest: Vec<PendingMultipart> = Vec::new();
        std::mem::swap(&mut rest, &mut self.pending);
        let ghost n = rest.len();
        let mut i: usize = 0;
        while rest.len() > 0
            invariant
                0 <= i <= n,
                rest.len() == n - i,
                orig.len() == n,
                pending_views(rest@) == orig.skip(i as int),
                self.pending() == keep_fresh(orig.take(i as int), now),
                groups_well_formed(orig),
            decreases rest.len(),
        {
            let ghost before_rest = rest@;
            let p = rest.remove(0);
            proof {
                assert(before_rest[0] == p);
                assert(pending_views(before_rest)[0] == p@);
                assert(orig.skip(i as int)[0] == p@);
                assert(rest@ =~= before_rest.subrange(1, before_rest.len() as int));
                assert forall|j: int| 0 <= j < rest@.len() implies #[trigger] pending_views(rest@)[j]
                    == orig.skip(i + 1)[j] by {
                    assert(rest@[j] == before_rest[j + 1]);
                    assert(pending_views(before_rest)[j + 1] == orig.skip(i as int)[j + 1]);
                }
                assert(pending_views(rest@) =~= orig.skip(i + 1));
                let next = orig.take(i + 1);
                assert(next.drop_last() =~= orig.take(i as int));
                assert(next.last() == p@);
            }
            let keep = if now <= p.created_at_ms {
                true
            } else {
                now - p.created_at_ms < PART_TTL_MILLIS
            };
            if keep {
                self.pending.push(p);
            }
            proof {
                assert(self.pending() =~= keep_fresh(orig.take(i + 1), now));
            }
            i = i + 1;
        }
        assert(orig.take(n as int) =~= orig);
        proof {
            lemma_keep_fresh_well_formed(orig, now);
        }
    }
}

pub proof fn lemma_keep_fresh_well_formed(ps: Seq<PendingView>, now: u64)
    requires
        groups_well_formed(ps),
    ensures
        groups_well_formed(keep_fresh(ps, now)),
    decreases ps.len(),
{
    if ps.len() > 0 {
        let init = ps.drop_last();
        assert(groups_well_formed(init)) by {
            assert forall|j: int, k: int| 0 <= j < k < init.len() implies distinct_keys(
                #[trigger] init[j],
                #[trigger] init[k],
            ) by {
                assert(init[j] == ps[j] && init[k] == ps[k]);
            }
        }
        lemma_keep_fresh_well_formed(init, now);
        lemma_keep_fresh_subset(init, now);
        let rest = keep_fresh(init, now);
        if is_fresh(ps.last(), now) {
            let out = rest.push(ps.last());
            assert forall|j: int, k: int| 0 <= j < k < out.len() implies distinct_keys(
                #[trigger] out[j],
                #[trigger] out[k],
            ) by {
                if k == out.len() - 1 {
                    assert(init.contains(rest[j]));
                    let w = choose|i: int| 0 <= i < init.len() && init[i] == rest[j];
                    assert(ps[w] == rest[j] && ps[ps.len() - 1] == ps.last());
                } else {
                    assert(out[j] == rest[j] && out[k] == rest[k]);
                }
            }
        }
    }
}

/// End of the run of ASCII digits that starts at `i`.
pub open spec fn digit_run_end(s: Seq<char>, i: int) -> int
    decreases s.len() - i,
{
    if 0 <= i < s.len() && is_ascii_digit(s[i]) {
        digit_run_end(s, i + 1)
    } else {
        i
    }
}

pub proof fn lemma_digit_run_end(s: Seq<char>, i: int)
    requires
        0 <= i,
    ensures
        i <= digit_run_end(s, i),
        i <= s.len() ==> digit_run_end(s, i) <= s.len(),
        forall|k: int| i <= k < digit_run_end(s, i) ==> is_ascii_digit(#[trigger] s[k]),
    decreases s.len() - i,
{
    if i < s.len() && is_ascii_digit(s[i]) {
        lemma_digit_run_end(s, i + 1);
    }
}

/// Start and end of the first maximal run of 4 to 8 ASCII digits at or after `i`.
pub open spec fn code_run_from(s: Seq<char>, i: int) -> Option<(int, int)>
    decreases s.len() - i,
{
    if i < 0 || i >= s.len() {
        None
    } else if !is_ascii_digit(s[i]) {
        code_run_from(s, i + 1)
    } else {
        let e = digit_run_end(s, i + 1);
        proof {
            lemma_digit_run_end(s, i + 1);
        }
        if 4 <= e - i <= 8 {
            Some((i, e))
        } else {
            code_run_from(s, e)
        }
    }
}

/// The verification code in a text: its first maximal run of 4 to 8 ASCII digits.
pub open spec fn first_code_run(s: Seq<char>) -> Option<Seq<char>> {
    match code_run_from(s, 0) {
        Some((a, b)) => Some(s.subrange(a, b)),
        None => None,
    }
}

/// Finds the first maximal run of 4 to 8 ASCII digits.
pub fn find_code_run(s: &Vec<char>) -> (r: Option<Vec<char>>)
    ensures
        r matches Some(v) ==> first_code_run(s@) == Some(v@),
        r is None ==> first_code_run(s@) is None,
{
    let mut start: usize = 0;
    while start < s.len()
        invariant
            0 <= start <= s.len(),
            code_run_from(s@, 0) == code_run_from(s@, start as int),
        decreases s.len() - start,
    {
        if !crate::text::char_is_ascii_digit(s[start]) {
            start = start + 1;
        } else {
            let mut end = start + 1;
            while end < s.len() && crate::text::char_is_ascii_digit(s[end])
                invariant
                    start < end <= s.len(),
                    digit_run_end(s@, start + 1) == digit_run_end(s@, end as int),
                decreases s.len() - end,
            {
                end = end + 1;
            }
            let len = end - start;
            if 4 <= len && len <= 8 {
                return Some(sub_chars(s, start, end));
            }
            start = end;
        }
    }
    None
}

/// The semantic hints that let `extract_code` accept a digit run.
pub open spec fn has_code_hint(lower: Seq<char>) -> bool {
    ||| contains(lower, "验证码"@)
    ||| contains(lower, "校验码"@)
    ||| contains(lower, "动态码"@)
    ||| contains(lower, "安全码"@)
    ||| contains(lower, "一次性密码"@)
    ||| contains(lower, "otp"@)
    ||| contains(lower, "verification code"@)
    ||| contains(lower, "verify code"@)
    ||| contains(lower, "passcode"@)
    ||| contains(lower, "security code"@)
    ||| contains(lower, "one-time password"@)
    ||| contains(lower, "one time password"@)
}

/// Whether lower-cased text carries one of the verification-code hints.
pub fn code_hint_in(lower: &str) -> (b: bool)
    ensures
        b == has_code_hint(lower@),
{
    let lower = chars_of(lower);
    contains_str(&lower, "验证码") || contains_str(&lower, "校验码") || contains_str(&lower, "动态码")
        || contains_str(&lower, "安全码") || contains_str(&lower, "一次性密码") || contains_str(
        &lower,
        "otp",
    ) || contains_str(&lower, "verification code") || contains_str(&lower, "verify code")
        || contains_str(&lower, "passcode") || contains_str(&lower, "security code")
        || contains_str(&lower, "one-time password") || contains_str(&lower, "one time password")
}

/// The code that `extract_code` finds in a body.
pub open spec fn extracted_code(body: Seq<char>) -> Option<Seq<char>> {
    if has_code_hint(unicode_lowercase(body)) {
        first_code_run(body)
    } else {
        None
    }
}

/// A verification code: only where the lower-cased body carries a code hint,
/// the first run of 4 to 8 ASCII digits in the body.
pub fn extract_code(body: &str) -> (r: Option<String>)
    ensures
        opt_view(r) == extracted_code(body@),
{
    let lower = to_lowercase(body);
    let hinted = code_hint_in(lower.as_str());
    if !hinted {
        return None;
    }
    let chars = chars_of(body);
    match find_code_run(&chars) {
        Some(v) => Some(string_of(&v)),
        None => None,
    }
}

pub open spec fn is_billing_text(lower: Seq<char>) -> bool {
    ||| contains(lower, "续费"@)
    ||| contains(lower, "到期"@)
    ||| contains(lower, "账单"@)
    ||| contains(lower, "余额"@)
    ||| contains(lower, "扣费"@)
    ||| contains(lower, "充值"@)
    ||| contains(lower, "renew"@)
    ||| contains(lower, "bill"@)
    ||| contains(lower, "balance"@)
    ||| contains(lower, "payment"@)
    ||| contains(lower, "expire"@)
    ||| contains(lower, "subscription"@)
}

pub open spec fn is_usage_text(lower: Seq<char>) -> bool {
    ||| contains(lower, "流量"@)
    ||| contains(lower, "套餐"@)
    ||| contains(lower, "已使用"@)
    ||| contains(lower, "剩余"@)
    ||| contains(lower, "data"@)
    ||| contains(lower, "usage"@)
    ||| contains(lower, "quota"@)
    ||| contains(lower, "gb"@)
    ||| contains(lower, "mb"@)
}

/// The category for lower-cased text: `code` when a code was found, else
/// `billing`, `usage` or `notice` by its keywords, in that order.
pub open spec fn lower_category(lower: Seq<char>, has_code: bool) -> Seq<char> {
    if has_code {
        "code"@
    } else if is_billing_text(lower) {
        "billing"@
    } else if is_usage_text(lower) {
        "usage"@
    } else {
        "notice"@
    }
}

/// The category of a message: that of its lower-cased body.
pub open spec fn category_of(body: Seq<char>, has_code: bool) -> Seq<char> {
    lower_category(unicode_lowercase(body), has_code)
}

pub fn category_from_lower(lower: &str, has_code: bool) -> (r: &'static str)
    ensures
        r@ == lower_category(lower@, has_code),
{
    if has_code {
        return "code";
    }
    let lower = chars_of(lower);
    if contains_str(&lower, "续费") || contains_str(&lower, "到期") || contains_str(&lower, "账单")
        || contains_str(&lower, "余额") || contains_str(&lower, "扣费") || contains_str(&lower, "充值")
        || contains_str(&lower, "renew") || contains_str(&lower, "bill") || contains_str(
        &lower,
        "balance",
    ) || contains_str(&lower, "payment") || contains_str(&lower, "expire") || contains_str(
        &lower,
        "subscription",
    ) {
        return "billing";
    }
    if contains_str(&lower, "流量") || contains_str(&lower, "套餐") || contains_str(&lower, "已使用")
        || contains_str(&lower, "剩余") || contains_str(&lower, "data") || contains_str(&lower, "usage")
        || contains_str(&lower, "quota") || contains_str(&lower, "gb") || contains_str(&lower, "mb") {
        return "usage";
    }
    "notice"
}

pub fn classify_message(body: &str, has_code: bool) -> (r: &'static str)
    ensures
        r@ == category_of(body@, has_code),
{
    if has_code {
        return "code";
    }
    let lower = to_lowercase(body);
    category_from_lower(lower.as_str(), false)
}

/// The text from which a message identity is derived: source key, sender and body,
/// one per line.
pub open spec fn identity_text(c: CompleteView) -> Seq<char> {
    c.source_key + "\n"@ + c.sender + "\n"@ + c.body
}

/// The stored message for a complete SMS whose timestamp is `received_at`.
pub open spec fn stored_message(c: CompleteView, m: SmsMessage, received_at: Seq<char>) -> bool {
    &&& m.id@ == uuid_v5_oid_text(identity_text(c))
    &&& m.sender@ == c.sender
    &&& m.body@ == c.body
    &&& m.received_at@ == received_at
    &&& m.unread
    &&& !m.archived
    &&& opt_view(m.code) == extracted_code(c.body)
    &&& m.category@ == category_of(c.body, extracted_code(c.body) is Some)
    &&& m.slot is None
}

/// The timestamp a stored message gets: the provider's RFC 3339 time in chrono's
/// canonical form, or `fallback` where there is none or it does not parse.
pub open spec fn stored_time(c: CompleteView, fallback: Seq<char>) -> Seq<char> {
    match c.received_at {
        Some(t) => match rfc3339_canonical(t) {
            Some(n) => n,
            None => fallback,
        },
        None => fallback,
    }
}

/// The stored message for a complete SMS, with `now` as the time of arrival
/// where the provider gave none that parses.
pub fn message_from_complete_at(complete: CompleteSms, now: String) -> (m: SmsMessage)
    ensures
        stored_message(complete@, m, stored_time(complete@, now@)),
{
    let ghost c = complete@;
    let received_at = match &complete.received_at {
        Some(value) => match canonical_rfc3339(value.as_str()) {
            Some(text) => text,
            None => now,
        },
        None => now,
    };
    build_message(complete, received_at)
}

/// The stored message for a complete SMS. Where the provider's time is missing
/// or does not parse, the message is stamped with the current UTC time.
pub fn message_from_complete(complete: CompleteSms) -> (m: SmsMessage)
    ensures
        exists|now: Seq<char>| stored_message(complete@, m, stored_time(complete@, now)),
{
    let received_at = match &complete.received_at {
        Some(value) => match canonical_rfc3339(value.as_str()) {
            Some(text) => text,
            None => now_rfc3339(),
        },
        None => now_rfc3339(),
    };
    let ghost t = received_at@;
    let m = build_message(complete, received_at);
    assert(stored_message(complete@, m, stored_time(complete@, t)));
    m
}

fn build_message(complete: CompleteSms, received_at: String) -> (m: SmsMessage)
    ensures
        stored_message(complete@, m, received_at@),
{
    let code = extract_code(complete.body.as_str());
    let category = classify_message(complete.body.as_str(), code.is_some());
    let mut identity: Vec<char> = Vec::new();
    append_str(&mut identity, complete.source_key.as_str());
    append_str(&mut identity, "\n");
    append_str(&mut identity, complete.sender.as_str());
    append_str(&mut identity, "\n");
    append_str(&mut identity, complete.body.as_str());
    let identity_s = string_of(&identity);
    let id = uuid_v5_oid(identity_s.as_str());
    SmsMessage {
        id,
        sender: complete.sender,
        body: complete.body,
        received_at,
        unread: true,
        archived: false,
        category: str_to_string(category),
        code,
        slot: None,
    }
}

// ---------------------------------------------------------------------------
// Laws of the assembler.
// ---------------------------------------------------------------------------

/// Every part in a group sits in the slot of its sequence number and belongs
/// to the group's sender, reference and part count.
pub open spec fn in_its_slot(g: PendingView) -> bool {
    forall|i: int|
        0 <= i < g.parts.len() && (#[trigger] g.parts[i]) is Some ==> g.parts[i].unwrap().concatenation
            == Some(Concatenation { reference: g.reference, total: g.total, sequence: (i + 1) as u8 })
            && g.parts[i].unwrap().sender@ == g.sender
}

pub open spec fn parts_in_their_slots(ps: Seq<PendingView>) -> bool {
    forall|k: int| 0 <= k < ps.len() ==> in_its_slot(#[trigger] ps[k])
}

pub open spec fn all_fresh(ps: Seq<PendingView>, now: u64) -> bool {
    forall|k: int| 0 <= k < ps.len() ==> is_fresh(#[trigger] ps[k], now)
}

/// What survives expiry is fresh, and was there before.
pub proof fn lemma_keep_fresh_subset(ps: Seq<PendingView>, now: u64)
    ensures
        all_fresh(keep_fresh(ps, now), now),
        forall|j: int|
            0 <= j < keep_fresh(ps, now).len() ==> ps.contains(#[trigger] keep_fresh(ps, now)[j]),
    decreases ps.len(),
{
    if ps.len() > 0 {
        lemma_keep_fresh_subset(ps.drop_last(), now);
        let rest = keep_fresh(ps.drop_last(), now);
        assert forall|j: int| 0 <= j < keep_fresh(ps, now).len() implies ps.contains(
            #[trigger] keep_fresh(ps, now)[j],
        ) by {
            if j < rest.len() {
                let g = rest[j];
                assert(ps.drop_last().contains(g));
                let w = choose|i: int| 0 <= i < ps.drop_last().len() && ps.drop_last()[i] == g;
                assert(ps[w] == g);
            } else {
                assert(ps[ps.len() - 1] == ps.last());
            }
        }
    }
}

/// A push leaves every part in the slot of its sequence number, and only
/// groups that have not expired; a multipart message that completes is
/// assembled from a group whose slot `i` holds part `i + 1`, so its text is
/// in sequence order whatever the order of arrival.
pub proof fn lemma_push_keeps_parts_in_order(
    before: Seq<PendingView>,
    incoming: IncomingSms,
    now: u64,
    after: Seq<PendingView>,
    r: Result<Option<CompleteView>, Seq<char>>,
)
    requires
        groups_well_formed(before),
        parts_in_their_slots(before),
        push_outcome(before, incoming, now, after, r),
    ensures
        parts_in_their_slots(after),
        all_fresh(after, now),
        incoming.concatenation is Some ==> (r matches Ok(Some(c)) ==> exists|g: PendingView|
            in_its_slot(g) && all_filled(g.parts) && g.parts.len() == g.total && c == assembled(g)),
{
    let fresh = keep_fresh(before, now);
    lemma_keep_fresh_subset(before, now);
    lemma_keep_fresh_well_formed(before, now);
    assert(parts_in_their_slots(fresh)) by {
        assert forall|k: int| 0 <= k < fresh.len() implies in_its_slot(#[trigger] fresh[k]) by {
            assert(before.contains(fresh[k]));
            let w = choose|i: int| 0 <= i < before.len() && before[i] == fresh[k];
            assert(in_its_slot(before[w]));
        }
    }
    match incoming.concatenation {
        None => {},
        Some(c) => {
            if valid_concatenation(c) {
                let (filed, k) = file_part(fresh, incoming, c, now);
                let slot = c.sequence - 1;
                lemma_find_group_from(fresh, incoming.sender@, c.reference, c.total, 0);
                assert(0 <= k < filed.len());
                assert(in_its_slot(filed[k])) by {
                    assert forall|i: int|
                        0 <= i < filed[k].parts.len() && (#[trigger] filed[k].parts[i]) is Some
                            implies filed[k].parts[i].unwrap().concatenation == Some(
                        Concatenation {
                            reference: filed[k].reference,
                            total: filed[k].total,
                            sequence: (i + 1) as u8,
                        },
                    ) && filed[k].parts[i].unwrap().sender@ == filed[k].sender by {
                        if i != slot {
                            match find_group_from(fresh, incoming.sender@, c.reference, c.total, 0) {
                                Some(j) => {
                                    assert(filed[k].parts[i] == fresh[j].parts[i]);
                                    assert(in_its_slot(fresh[j]));
                                },
                                None => {
                                    assert(filed[k].parts[i] == none_slots(c.total as nat)[i]);
                                },
                            }
                        }
                    }
                }
                assert(parts_in_their_slots(filed)) by {
                    assert forall|j: int| 0 <= j < filed.len() implies in_its_slot(#[trigger] filed[j]) by {
                        if j != k {
                            assert(filed[j] == fresh[j]);
                        }
                    }
                }
                assert(all_fresh(filed, now)) by {
                    assert forall|j: int| 0 <= j < filed.len() implies is_fresh(#[trigger] filed[j], now) by {
                        if j != k {
                            assert(filed[j] == fresh[j]);
                        } else {
                            match find_group_from(fresh, incoming.sender@, c.reference, c.total, 0) {
                                Some(x) => {
                                    assert(filed[k].created_at_ms == fresh[x].created_at_ms);
                                },
                                None => {},
                            }
                        }
                    }
                }
                if all_filled(filed[k].parts) {
                    let out = filed.remove(k);
                    assert(parts_in_their_slots(out)) by {
                        assert forall|j: int| 0 <= j < out.len() implies in_its_slot(#[trigger] out[j]) by {
                            if j < k {
                                assert(out[j] == filed[j]);
                            } else {
                                assert(out[j] == filed[j + 1]);
                            }
                        }
                    }
                    assert(all_fresh(out, now)) by {
                        assert forall|j: int| 0 <= j < out.len() implies is_fresh(#[trigger] out[j], now) by {
                            if j < k {
                                assert(out[j] == filed[j]);
                            } else {
                                assert(out[j] == filed[j + 1]);
                            }
                        }
                    }
                    match find_group_from(fresh, incoming.sender@, c.reference, c.total, 0) {
                        Some(x) => {
                            assert(fresh[x].parts.len() == fresh[x].total as nat);
                        },
                        None => {},
                    }
                    assert(filed[k].parts.len() == filed[k].total);
                }
            }
        },
    }
}

pub proof fn lemma_digit_run_stops(s: Seq<char>, j: int)
    requires
        0 <= j,
    ensures
        digit_run_end(s, j) < s.len() ==> !is_ascii_digit(s[digit_run_end(s, j)]),
    decreases s.len() - j,
{
    if j < s.len() && is_ascii_digit(s[j]) {
        lemma_digit_run_stops(s, j + 1);
    }
}

pub proof fn lemma_code_run_from(s: Seq<char>, i: int)
    requires
        0 <= i <= s.len(),
        i == 0 || i == s.len() || !is_ascii_digit(s[i - 1]) || !is_ascii_digit(s[i]),
    ensures
        code_run_from(s, i) matches Some((a, b)) ==> {
            &&& i <= a < b <= s.len()
            &&& 4 <= b - a <= 8
            &&& forall|k: int| a <= k < b ==> is_ascii_digit(#[trigger] s[k])
            &&& (a == 0 || !is_ascii_digit(s[a - 1]))
            &&& (b == s.len() || !is_ascii_digit(s[b]))
        },
    decreases s.len() - i,
{
    if 0 <= i < s.len() {
        if !is_ascii_digit(s[i]) {
            lemma_code_run_from(s, i + 1);
        } else {
            lemma_digit_run_end(s, i + 1);
            lemma_digit_run_stops(s, i + 1);
            let e = digit_run_end(s, i + 1);
            if !(4 <= e - i <= 8) {
                lemma_code_run_from(s, e);
            }
        }
    }
}

/// A verification code is a whole run of 4 to 8 ASCII digits in the body:
/// no digit stands right before or after it.
#[verifier::spinoff_prover]
pub proof fn lemma_code_is_a_whole_short_digit_run(body: Seq<char>)
    ensures
        extracted_code(body) matches Some(code) ==> {
            &&& 4 <= code.len() <= 8
            &&& forall|k: int| 0 <= k < code.len() ==> is_ascii_digit(#[trigger] code[k])
            &&& exists|a: int|
                0 <= a && a + code.len() <= body.len() && #[trigger] body.subrange(a, a + code.len()) == code
                    && (a == 0 || !is_ascii_digit(body[a - 1])) && (a + code.len() == body.len()
                    || !is_ascii_digit(body[a + code.len()]))
        },
{
    lemma_code_run_from(body, 0);
    match code_run_from(body, 0) {
        Some((a, b)) => {
            let code = body.subrange(a, b);
            assert forall|k: int| 0 <= k < code.len() implies is_ascii_digit(#[trigger] code[k]) by {
                assert(code[k] == body[a + k]);
            }
            assert(body.subrange(a, a + code.len()) == code);
        },
        None => {},
    }
}

/// `s[a..b]` is a whole run of 4 to 8 ASCII digits: no digit stands right
/// before or after it.
pub open spec fn whole_code_at(s: Seq<char>, a: int, b: int) -> bool {
    &&& 0 <= a < b <= s.len()
    &&& 4 <= b - a <= 8
    &&& forall|k: int| a <= k < b ==> is_ascii_digit(#[trigger] s[k])
    &&& (a == 0 || !is_ascii_digit(s[a - 1]))
    &&& (b == s.len() || !is_ascii_digit(s[b]))
}

/// The code search from `i` finds a whole run that starts no later than any
/// whole run starting at or after `i`.
proof fn lemma_code_run_is_first(s: Seq<char>, i: int, a2: int, b2: int)
    requires
        0 <= i <= s.len(),
        i == 0 || i == s.len() || !is_ascii_digit(s[i - 1]) || !is_ascii_digit(s[i]),
        whole_code_at(s, a2, b2),
        i <= a2,
    ensures
        code_run_from(s, i) matches Some((a, b)) && a <= a2,
    decreases s.len() - i,
{
    assert(is_ascii_digit(s[a2]));
    if !is_ascii_digit(s[i]) {
        lemma_code_run_is_first(s, i + 1, a2, b2);
    } else {
        lemma_digit_run_end(s, i + 1);
        lemma_digit_run_stops(s, i + 1);
        let e = digit_run_end(s, i + 1);
        if !(4 <= e - i <= 8) {
            if a2 == i {
                if b2 < e {
                    assert(is_ascii_digit(s[b2]));
                } else if b2 > e {
                    assert(is_ascii_digit(s[e]));
                }
            } else if a2 < e {
                assert(is_ascii_digit(s[a2 - 1]));
            }
            lemma_code_run_is_first(s, e, a2, b2);
        }
    }
}

/// The first whole run of 4 to 8 ASCII digits in a text: it is a whole run,
/// no whole run starts before it, and there is none only where the text has
/// no whole run at all.
pub proof fn lemma_first_code_run_is_first(s: Seq<char>)
    ensures
        first_code_run(s) matches Some(code) ==> exists|a: int, b: int|
            #[trigger] whole_code_at(s, a, b) && code == s.subrange(a, b) && forall|a2: int, b2: int|
                #[trigger] whole_code_at(s, a2, b2) ==> a <= a2,
        first_code_run(s) is None ==> forall|a: int, b: int| !#[trigger] whole_code_at(s, a, b),
{
    lemma_code_run_from(s, 0);
    match code_run_from(s, 0) {
        Some((a, b)) => {
            assert(whole_code_at(s, a, b));
            assert forall|a2: int, b2: int| #[trigger] whole_code_at(s, a2, b2) implies a <= a2 by {
                lemma_code_run_is_first(s, 0, a2, b2);
            }
        },
        None => {
            assert forall|a: int, b: int| !#[trigger] whole_code_at(s, a, b) by {
                if whole_code_at(s, a, b) {
                    lemma_code_run_is_first(s, 0, a, b);
                }
            }
        },
    }
}

/// Which bodies give a verification code. Where the lower-cased body holds one
/// of the hint phrases 验证码, 校验码, 动态码, 安全码, 一次性密码, otp,
/// verification code, verify code, passcode, security code, one-time password
/// or one time password, the code is the first whole run of 4 to 8 ASCII
/// digits in the body (none where the body has no such run); where it holds
/// none of them, there is no code.
pub proof fn lemma_code_needs_a_hint_phrase(body: Seq<char>)
    ensures
        ({
            let lower = unicode_lowercase(body);
            let hinted = contains(lower, "验证码"@) || contains(lower, "校验码"@) || contains(
                lower,
                "动态码"@,
            ) || contains(lower, "安全码"@) || contains(lower, "一次性密码"@) || contains(
                lower,
                "otp"@,
            ) || contains(lower, "verification code"@) || contains(lower, "verify code"@)
                || contains(lower, "passcode"@) || contains(lower, "security code"@) || contains(
                lower,
                "one-time password"@,
            ) || contains(lower, "one time password"@);
            &&& hinted ==> (extracted_code(body) matches Some(code) ==> exists|a: int, b: int|
                #[trigger] whole_code_at(body, a, b) && code == body.subrange(a, b) && forall|
                    a2: int,
                    b2: int,
                | #[trigger] whole_code_at(body, a2, b2) ==> a <= a2)
            &&& hinted ==> (extracted_code(body) is None ==> forall|a: int, b: int|
                !#[trigger] whole_code_at(body, a, b))
            &&& !hinted ==> extracted_code(body) is None
        }),
{
    lemma_first_code_run_is_first(body);
}

/// The category of lower-cased text by its keywords: `code` whenever a code
/// was found; else `billing` where it holds any of 续费, 到期, 账单, 余额, 扣费,
/// 充值, renew, bill, balance, payment, expire or subscription; else `usage`
/// where it holds any of 流量, 套餐, 已使用, 剩余, data, usage, quota, gb or mb;
/// else `notice`. A message's category is that of its lower-cased body.
pub proof fn lemma_category_keywords(lower: Seq<char>, has_code: bool, body: Seq<char>)
    ensures
        ({
            let billing = contains(lower, "续费"@) || contains(lower, "到期"@) || contains(
                lower,
                "账单"@,
            ) || contains(lower, "余额"@) || contains(lower, "扣费"@) || contains(lower, "充值"@)
                || contains(lower, "renew"@) || contains(lower, "bill"@) || contains(lower, "balance"@)
                || contains(lower, "payment"@) || contains(lower, "expire"@) || contains(
                lower,
                "subscription"@,
            );
            let usage = contains(lower, "流量"@) || contains(lower, "套餐"@) || contains(
                lower,
                "已使用"@,
            ) || contains(lower, "剩余"@) || contains(lower, "data"@) || contains(lower, "usage"@)
                || contains(lower, "quota"@) || contains(lower, "gb"@) || contains(lower, "mb"@);
            &&& has_code ==> lower_category(lower, has_code) == "code"@
            &&& !has_code && billing ==> lower_category(lower, has_code) == "billing"@
            &&& !has_code && !billing && usage ==> lower_category(lower, has_code) == "usage"@
            &&& !has_code && !billing && !usage ==> lower_category(lower, has_code) == "notice"@
        }),
        category_of(body, has_code) == lower_category(unicode_lowercase(body), has_code),
{
}

} // verus!
