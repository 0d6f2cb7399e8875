//! The receive session's state and the persisted message list: dedupe,
//! retention, read/archive state and the listener's stop signal.

use std::sync::atomic::AtomicBool;
use std::sync::atomic::Ordering;
use std::sync::Arc;

use vstd::prelude::*;

use crate::model::{is_default_snapshot, CellularSnapshot, SmsMessage};

verus! {

/// How many messages the store keeps, newest first.
pub const MESSAGE_LIMIT: usize = 1000;

/// The same sender, body and modem slot: a message already stored.
pub open spec fn is_duplicate(m: SmsMessage, sms: SmsMessage) -> bool {
    m.sender@ == sms.sender@ && m.body@ == sms.body@ && m.slot == sms.slot
}

pub open spec fn has_duplicate(ms: Seq<SmsMessage>, sms: SmsMessage) -> bool {
    exists|i: int| 0 <= i < ms.len() && is_duplicate(#[trigger] ms[i], sms)
}

/// `sms` stored in front of `ms`, keeping the newest `MESSAGE_LIMIT`.
pub open spec fn with_new_message(ms: Seq<SmsMessage>, sms: SmsMessage) -> Seq<SmsMessage> {
    let all = seq![sms] + ms;
    if all.len() > MESSAGE_LIMIT {
        all.take(MESSAGE_LIMIT as int)
    } else {
        all
    }
}

/// What `push_message` does to the list and what it returns.
pub open spec fn push_effect(ms: Seq<SmsMessage>, sms: SmsMessage) -> (Seq<SmsMessage>, bool) {
    if has_duplicate(ms, sms) {
        (ms, false)
    } else {
        (with_new_message(ms, sms), true)
    }
}

/// A message counts as unread while it is unread and not archived.
pub open spec fn counts_unread(m: SmsMessage) -> bool {
    m.unread && !m.archived
}

pub open spec fn unread_in(ms: Seq<SmsMessage>) -> nat
    decreases ms.len(),
{
    if ms.len() == 0 {
        0
    } else {
        unread_in(ms.drop_last()) + if counts_unread(ms.last()) {
            1nat
        } else {
            0nat
        }
    }
}

/// First message at or after `i` with the id `id`.
pub open spec fn find_id_from(ms: Seq<SmsMessage>, id: Seq<char>, i: int) -> Option<int>
    decreases ms.len() - i,
{
    if i < 0 || i >= ms.len() {
        None
    } else if ms[i].id@ == id {
        Some(i)
    } else {
        find_id_from(ms, id, i + 1)
    }
}

pub open spec fn read_copy(m: SmsMessage) -> SmsMessage {
    SmsMessage { unread: false, ..m }
}

/// `m` with its archive flag set to `archived`; archiving also marks it read.
pub open spec fn archived_copy(m: SmsMessage, archived: bool) -> SmsMessage {
    SmsMessage {
        archived: archived,
        unread: if archived {
            false
        } else {
            m.unread
        },
        ..m
    }
}

pub open spec fn mark_read_effect(ms: Seq<SmsMessage>, id: Seq<char>) -> Seq<SmsMessage> {
    match find_id_from(ms, id, 0) {
        Some(k) => ms.update(k, read_copy(ms[k])),
        None => ms,
    }
}

pub open spec fn set_archived_effect(ms: Seq<SmsMessage>, id: Seq<char>, archived: bool) -> Seq<
    SmsMessage,
> {
    match find_id_from(ms, id, 0) {
        Some(k) => ms.update(k, archived_copy(ms[k], archived)),
        None => ms,
    }
}

pub open spec fn all_read_effect(ms: Seq<SmsMessage>) -> Seq<SmsMessage> {
    ms.map_values(
        |m: SmsMessage|
            if !m.archived {
                read_copy(m)
            } else {
                m
            },
    )
}

pub open spec fn sender_read_effect(ms: Seq<SmsMessage>, sender: Seq<char>) -> Seq<SmsMessage> {
    ms.map_values(
        |m: SmsMessage|
            if m.sender@ == sender && !m.archived {
                read_copy(m)
            } else {
                m
            },
    )
}

pub open spec fn sender_archived_effect(
    ms: Seq<SmsMessage>,
    sender: Seq<char>,
    archived: bool,
) -> Seq<SmsMessage> {
    ms.map_values(
        |m: SmsMessage|
            if m.sender@ == sender {
                archived_copy(m, archived)
            } else {
                m
            },
    )
}

/// The session snapshot, the message list and the stop signal of the running listener.
pub struct CellularManager {
    snapshot: CellularSnapshot,
    messages: Vec<SmsMessage>,
    stop_flag: Option<Arc<AtomicBool>>,
}

impl CellularManager {
    pub closed spec fn session(&self) -> CellularSnapshot {
        self.snapshot
    }

    pub closed spec fn stored(&self) -> Seq<SmsMessage> {
        self.messages@
    }

    pub closed spec fn stop_signal(&self) -> Option<Arc<AtomicBool>> {
        self.stop_flag
    }

    /// A manager over the messages read from storage, with no session yet.
    pub fn load(messages: Vec<SmsMessage>) -> (m: Self)
        ensures
            m.stored() == messages@,
            is_default_snapshot(m.session()),
            m.stop_signal() is None,
    {
        CellularManager { snapshot: CellularSnapshot::default(), messages, stop_flag: None }
    }

    pub fn snapshot(&self) -> (s: CellularSnapshot)
        ensures
            s == self.session(),
    {
        self.snapshot.clone()
    }

    pub fn set_snapshot(&mut self, value: CellularSnapshot)
        ensures
            final(self).session() == value,
            final(self).stored() == old(self).stored(),
            final(self).stop_signal() == old(self).stop_signal(),
    {
        self.snapshot = value;
    }

    /// Records a provider failure: the session keeps its fields but is no longer connected.
    pub fn set_error(&mut self, error: String)
        ensures
            final(self).session() == (CellularSnapshot {
                last_error: Some(error),
                connected: false,
                ..old(self).session()
            }),
            final(self).stored() == old(self).stored(),
            final(self).stop_signal() == old(self).stop_signal(),
    {
        self.snapshot.last_error = Some(error);
        self.snapshot.connected = false;
    }

    pub fn messages(&self) -> (r: Vec<SmsMessage>)
        ensures
            r@ == self.stored(),
    {
        let mut r: Vec<SmsMessage> = Vec::new();
        let mut i: usize = 0;
        while i < self.messages.len()
            invariant
                0 <= i <= self.messages.len(),
                r@ == self.messages@.take(i as int),
            decreases self.messages.len() - i,
        {
            r.push(self.messages[i].clone());
            assert(r@ =~= self.messages@.take(i + 1));
            i = i + 1;
        }
        assert(self.messages@.take(self.messages.len() as int) =~= self.messages@);
        r
    }

    /// How many messages are unread and not archived.
    pub fn unread_count(&self) -> (n: usize)
        ensures
            n == unread_in(self.stored()),
    {
        let mut n: usize = 0;
        let mut i: usize = 0;
        while i < self.messages.len()
            invariant
                0 <= i <= self.messages.len(),
                n == unread_in(self.messages@.take(i as int)),
                n <= i,
            decreases self.messages.len() - i,
        {
            assert(self.messages@.take(i + 1).drop_last() =~= self.messages@.take(i as int));
            let m = &self.messages[i];
            if m.unread && !m.archived {
                n = n + 1;
            }
            i = i + 1;
        }
        assert(self.messages@.take(self.messages.len() as int) =~= self.messages@);
        n
    }

    /// Stores `sms` as the newest message unless a message with the same sender,
    /// body and slot is stored already; keeps the newest `MESSAGE_LIMIT`.
    /// Returns whether the message was stored.
    pub fn push_message(&mut self, sms: SmsMessage) -> (added: bool)
        ensures
            (final(self).stored(), added) == push_effect(old(self).stored(), sms),
            final(self).session() == old(self).session(),
            final(self).stop_signal() == old(self).stop_signal(),
    {
        let mut i: usize = 0;
        while i < self.messages.len()
            invariant
                0 <= i <= self.messages.len(),
                forall|k: int| 0 <= k < i ==> !is_duplicate(#[trigger] self.messages@[k], sms),
            decreases self.messages.len() - i,
        {
            let m = &self.messages[i];
            if m.sender == sms.sender && m.body == sms.body && m.slot == sms.slot {
                assert(is_duplicate(self.messages@[i as int], sms));
                return false;
            }
            i = i + 1;
        }
        self.messages.insert(0, sms);
        assert(self.messages@ =~= seq![sms] + old(self).stored());
        if self.messages.len() > MESSAGE_LIMIT {
            self.messages.truncate(MESSAGE_LIMIT);
        }
        true
    }

    fn find_id(&self, id: &str) -> (r: Option<usize>)
        ensures
            r matches Some(k) ==> find_id_from(self.stored(), id@, 0) == Some(k as int) && k
                < self.stored().len(),
            r is None ==> find_id_from(self.stored(), id@, 0) is None,
    {
        let target = crate::text::str_to_string(id);
        let mut i: usize = 0;
        while i < self.messages.len()
            invariant
                0 <= i <= self.messages.len(),
                target@ == id@,
                find_id_from(self.messages@, id@, 0) == find_id_from(self.messages@, id@, i as int),
            decreases self.messages.len() - i,
        {
            if self.messages[i].id == target {
                return Some(i);
            }
            i = i + 1;
        }
        None
    }

    /// Marks the first message with this id read.
    pub fn mark_read(&mut self, id: &str)
        ensures
            final(self).stored() == mark_read_effect(old(self).stored(), id@),
            final(self).session() == old(self).session(),
            final(self).stop_signal() == old(self).stop_signal(),
    {
        if let Some(k) = self.find_id(id) {
            let mut m = self.messages[k].clone();
            m.unread = false;
            self.messages.set(k, m);
        }
    }

    /// Marks every message that is not archived read.
    pub fn mark_all_read(&mut self)
        ensures
            final(self).stored() == all_read_effect(old(self).stored()),
            unread_in(final(self).stored()) == 0,
            final(self).session() == old(self).session(),
            final(self).stop_signal() == old(self).stop_signal(),
    {
        let ghost orig = self.messages@;
        let ghost snap0 = self.snapshot;
        let ghost flag0 = self.stop_flag;
        let mut i: usize = 0;
        while i < self.messages.len()
            invariant
                0 <= i <= self.messages.len(),
                self.messages.len() == orig.len(),
                self.snapshot == snap0,
                self.stop_flag == flag0,
                forall|k: int|
                    0 <= k < i ==> #[trigger] self.messages@[k] == all_read_effect(orig)[k],
                forall|k: int| i <= k < orig.len() ==> #[trigger] self.messages@[k] == orig[k],
            decreases self.messages.len() - i,
        {
            if !self.messages[i].archived {
                let mut m = self.messages[i].clone();
                m.unread = false;
                self.messages.set(i, m);
            }
            i = i + 1;
        }
        assert(self.messages@ =~= all_read_effect(orig));
        proof {
            lemma_no_unread_after_all_read(orig);
        }
    }

    /// Marks every message from `sender` that is not archived read.
    pub fn mark_sender_read(&mut self, sender: &str)
        ensures
            final(self).stored() == sender_read_effect(old(self).stored(), sender@),
            final(self).session() == old(self).session(),
            final(self).stop_signal() == old(self).stop_signal(),
    {
        let ghost orig = self.messages@;
        let ghost snap0 = self.snapshot;
        let ghost flag0 = self.stop_flag;
        let target = crate::text::str_to_string(sender);
        let mut i: usize = 0;
        while i < self.messages.len()
            invariant
                0 <= i <= self.messages.len(),
                self.messages.len() == orig.len(),
                self.snapshot == snap0,
                self.stop_flag == flag0,
                target@ == sender@,
                forall|k: int|
                    0 <= k < i ==> #[trigger] self.messages@[k] == sender_read_effect(
                        orig,
                        sender@,
                    )[k],
                forall|k: int| i <= k < orig.len() ==> #[trigger] self.messages@[k] == orig[k],
            decreases self.messages.len() - i,
        {
            if self.messages[i].sender == target && !self.messages[i].archived {
                let mut m = self.messages[i].clone();
                m.unread = false;
                self.messages.set(i, m);
            }
            i = i + 1;
        }
        assert(self.messages@ =~= sender_read_effect(orig, sender@));
    }

    /// Sets the archive flag of every message from `sender`; archiving also
    /// marks each of them read, whether or not it was archived before.
    pub fn set_sender_archived(&mut self, sender: &str, archived: bool)
        ensures
            final(self).stored() == sender_archived_effect(old(self).stored(), sender@, archived),
            final(self).session() == old(self).session(),
            final(self).stop_signal() == old(self).stop_signal(),
    {
        let ghost orig = self.messages@;
        let ghost snap0 = self.snapshot;
        let ghost flag0 = self.stop_flag;
        let target = crate::text::str_to_string(sender);
        let mut i: usize = 0;
        while i < self.messages.len()
            invariant
                0 <= i <= self.messages.len(),
                self.messages.len() == orig.len(),
                self.snapshot == snap0,
                self.stop_flag == flag0,
                target@ == sender@,
                forall|k: int|
                    0 <= k < i ==> #[trigger] self.messages@[k] == sender_archived_effect(
                        orig,
                        sender@,
                        archived,
                    )[k],
                forall|k: int| i <= k < orig.len() ==> #[trigger] self.messages@[k] == orig[k],
            decreases self.messages.len() - i,
        {
            if self.messages[i].sender == target {
                let mut m = self.messages[i].clone();
                m.archived = archived;
                if archived {
                    m.unread = false;
                }
                self.messages.set(i, m);
            }
            i = i + 1;
        }
        assert(self.messages@ =~= sender_archived_effect(orig, sender@, archived));
    }

    /// Sets the archive flag of the first message with this id; archiving also marks it read.
    pub fn set_archived(&mut self, id: &str, archived: bool)
        ensures
            final(self).stored() == set_archived_effect(old(self).stored(), id@, archived),
            final(self).session() == old(self).session(),
            final(self).stop_signal() == old(self).stop_signal(),
    {
        if let Some(k) = self.find_id(id) {
            let mut m = self.messages[k].clone();
            m.archived = archived;
            if archived {
                m.unread = false;
            }
            self.messages.set(k, m);
        }
    }

    /// Installs the stop signal of a new listener; the previous listener's signal,
    /// if any, is raised so that it stops.
    pub fn replace_stop_flag(&mut self, next: Arc<AtomicBool>)
        ensures
            final(self).stop_signal() == Some(next),
            final(self).stored() == old(self).stored(),
            final(self).session() == old(self).session(),
    {
        let previous = self.stop_flag.take();
        if let Some(old_flag) = previous {
            old_flag.store(true, Ordering::Relaxed);
        }
        self.stop_flag = Some(next);
    }

    /// Stops the running listener, if any, and resets the session.
    pub fn disconnect(&mut self)
        ensures
            final(self).stop_signal() is None,
            is_default_snapshot(final(self).session()),
            final(self).stored() == old(self).stored(),
    {
        if let Some(flag) = self.stop_flag.take() {
            flag.store(true, Ordering::Relaxed);
        }
        self.set_snapshot(CellularSnapshot::default());
    }
}

pub proof fn lemma_unread_in_zero(ms: Seq<SmsMessage>)
    requires
        forall|k: int| 0 <= k < ms.len() ==> !counts_unread(#[trigger] ms[k]),
    ensures
        unread_in(ms) == 0,
    decreases ms.len(),
{
    if ms.len() > 0 {
        assert(!counts_unread(ms[ms.len() - 1]));
        lemma_unread_in_zero(ms.drop_last());
    }
}

/// After every message that is not archived has been marked read, nothing counts as unread.
/// After marking everything read, no message counts as unread.
pub proof fn lemma_no_unread_after_all_read(ms: Seq<SmsMessage>)
    ensures
        unread_in(all_read_effect(ms)) == 0,
{
    let r = all_read_effect(ms);
    assert forall|k: int| 0 <= k < r.len() implies !counts_unread(#[trigger] r[k]) by {}
    lemma_unread_in_zero(r);
}

/// Storing a message is idempotent: a second push of the same message is
/// refused and leaves the list as the first push left it.
pub proof fn lemma_push_idempotent(ms: Seq<SmsMessage>, sms: SmsMessage)
    ensures
        push_effect(push_effect(ms, sms).0, sms) == (push_effect(ms, sms).0, false),
{
    let first = push_effect(ms, sms).0;
    if !has_duplicate(ms, sms) {
        assert(first[0] == sms);
        assert(is_duplicate(first[0], sms));
    }
}

/// A stored message is the newest one, and the list never grows past the
/// limit through a push.
pub proof fn lemma_push_keeps_newest_first(ms: Seq<SmsMessage>, sms: SmsMessage)
    ensures
        push_effect(ms, sms).1 ==> push_effect(ms, sms).0[0] == sms,
        push_effect(ms, sms).1 ==> push_effect(ms, sms).0.len() <= MESSAGE_LIMIT,
        push_effect(ms, sms).1 ==> forall|k: int|
            0 <= k < push_effect(ms, sms).0.len() - 1 ==> push_effect(ms, sms).0[k + 1] == ms[k],
        !push_effect(ms, sms).1 ==> push_effect(ms, sms).0 == ms,
{
}

pub proof fn lemma_find_id_from(ms: Seq<SmsMessage>, id: Seq<char>, i: int)
    requires
        0 <= i,
    ensures
        find_id_from(ms, id, i) matches Some(k) ==> i <= k < ms.len() && ms[k].id@ == id,
    decreases ms.len() - i,
{
    if i < ms.len() && ms[i].id@ != id {
        lemma_find_id_from(ms, id, i + 1);
    }
}

/// Archiving a message marks it read.
pub proof fn lemma_archive_marks_read(ms: Seq<SmsMessage>, id: Seq<char>)
    ensures
        find_id_from(ms, id, 0) matches Some(k) ==> {
            let after = set_archived_effect(ms, id, true);
            after[k].archived && !after[k].unread && !counts_unread(after[k])
        },
{
    lemma_find_id_from(ms, id, 0);
}

/// After archiving a sender's conversation every message from the sender is
/// archived and read, and no other message changes; restoring it clears the
/// archive flag of the sender's messages and leaves their read state alone.
pub proof fn lemma_sender_archive(ms: Seq<SmsMessage>, sender: Seq<char>)
    ensures
        forall|k: int|
            0 <= k < ms.len() && ms[k].sender@ == sender ==> (#[trigger] sender_archived_effect(
                ms,
                sender,
                true,
            )[k]).archived,
        forall|k: int|
            0 <= k < ms.len() && ms[k].sender@ == sender ==> !(#[trigger] sender_archived_effect(
                ms,
                sender,
                true,
            )[k]).unread,
        forall|k: int|
            0 <= k < ms.len() && ms[k].sender@ == sender ==> #[trigger] sender_archived_effect(
                ms,
                sender,
                false,
            )[k] == (SmsMessage { archived: false, ..ms[k] }),
        forall|k: int|
            0 <= k < ms.len() && ms[k].sender@ != sender ==> #[trigger] sender_archived_effect(
                ms,
                sender,
                true,
            )[k] == ms[k],
{
}

/// Marking a sender read touches only that sender's messages: each of them
/// that is not archived becomes read and keeps everything else; its archived
/// messages and every message of any other sender stay exactly as they were;
/// the list keeps its length and order.
pub proof fn lemma_sender_read_touches_only_the_sender(ms: Seq<SmsMessage>, sender: Seq<char>)
    ensures
        sender_read_effect(ms, sender).len() == ms.len(),
        forall|k: int|
            0 <= k < ms.len() && ms[k].sender@ != sender ==> #[trigger] sender_read_effect(
                ms,
                sender,
            )[k] == ms[k],
        forall|k: int|
            0 <= k < ms.len() && ms[k].sender@ == sender && ms[k].archived
                ==> #[trigger] sender_read_effect(ms, sender)[k] == ms[k],
        forall|k: int|
            0 <= k < ms.len() && ms[k].sender@ == sender && !ms[k].archived
                ==> #[trigger] sender_read_effect(ms, sender)[k] == (SmsMessage {
                unread: false,
                ..ms[k]
            }),
{
}

} // verus!
