//! The application state behind the UI: devices and the selected one, the
//! stored messages, the eSIM profiles and the multipart assembler, and what
//! each command and each receive poll does to them.
//!
//! Locking, persistence and the device I/O belong to the application; every
//! decision about the state is made here.

use vstd::prelude::*;

use crate::manager::{find_id_from, lemma_find_id_from, set_archived_effect, MESSAGE_LIMIT};
use crate::model::{
    clone_opt_string, opt_chars, profile_views, sms_views, AppSnapshot, CellularDevice,
    DeviceCapabilities, EsimProfile, EsimProfileView, RuntimeCapabilities, SmsMessage, SmsView,
};
use crate::providers::at::AtPoll;
use crate::sms::inbox::{
    all_filled, assembled, category_of, extracted_code, file_part, groups_well_formed, identity_text, keep_fresh,
    message_from_complete_at, push_outcome, result_view, single_part, stored_message,
    stored_time, valid_concatenation, CompleteView, IncomingSms, MultipartAssembler, PendingView,
};
use crate::ids::uuid_v5_oid_text;
use crate::text::{chars_of, str_to_string};
use crate::time::now_rfc3339;

verus! {

// ---------------------------------------------------------------------------
// Text order and the newest-first message list.
// ---------------------------------------------------------------------------

/// `a < b` in `str` order. Rust compares strings by their UTF-8 bytes, which
/// orders them as their sequences of code points are ordered lexicographically.
pub open spec fn text_lt(a: Seq<char>, b: Seq<char>) -> bool
    decreases a.len(),
{
    if b.len() == 0 {
        false
    } else if a.len() == 0 {
        true
    } else if a[0] != b[0] {
        a[0] < b[0]
    } else {
        text_lt(a.drop_first(), b.drop_first())
    }
}

pub fn text_less(a: &Vec<char>, b: &Vec<char>) -> (r: bool)
    ensures
        r == text_lt(a@, b@),
{
    let mut i: usize = 0;
    assert(a@.subrange(0, a@.len() as int) =~= a@);
    assert(b@.subrange(0, b@.len() as int) =~= b@);
    while i < a.len() && i < b.len()
        invariant
            0 <= i <= a.len(),
            i <= b.len(),
            text_lt(a@, b@) == text_lt(
                a@.subrange(i as int, a@.len() as int),
                b@.subrange(i as int, b@.len() as int),
            ),
        decreases a.len() - i,
    {
        let ghost x = a@.subrange(i as int, a@.len() as int);
        let ghost y = b@.subrange(i as int, b@.len() as int);
        assert(x[0] == a@[i as int] && y[0] == b@[i as int]);
        if a[i] != b[i] {
            return a[i] < b[i];
        }
        assert(x.drop_first() =~= a@.subrange(i + 1, a@.len() as int));
        assert(y.drop_first() =~= b@.subrange(i + 1, b@.len() as int));
        i = i + 1;
    }
    i < b.len()
}

/// Where `m` joins a newest-first list, looking from `i`: before the first
/// message that is strictly older, so that messages of the same time keep
/// their order.
pub open spec fn join_pos_from(ms: Seq<SmsMessage>, m: SmsMessage, i: int) -> int
    decreases ms.len() - i,
{
    if i < 0 || i >= ms.len() {
        ms.len() as int
    } else if text_lt(ms[i].received_at@, m.received_at@) {
        i
    } else {
        join_pos_from(ms, m, i + 1)
    }
}

pub proof fn lemma_join_pos_from(ms: Seq<SmsMessage>, m: SmsMessage, i: int)
    requires
        0 <= i <= ms.len(),
    ensures
        i <= join_pos_from(ms, m, i) <= ms.len(),
    decreases ms.len() - i,
{
    if i < ms.len() && !text_lt(ms[i].received_at@, m.received_at@) {
        lemma_join_pos_from(ms, m, i + 1);
    }
}

/// The messages ordered newest first by their `received_at` text, messages of
/// the same time in the order given (a stable sort).
pub open spec fn newest_first(ms: Seq<SmsMessage>) -> Seq<SmsMessage>
    decreases ms.len(),
{
    if ms.len() == 0 {
        ms
    } else {
        let sorted = newest_first(ms.drop_last());
        sorted.insert(join_pos_from(sorted, ms.last(), 0), ms.last())
    }
}

fn sort_newest_first(ms: &Vec<SmsMessage>) -> (r: Vec<SmsMessage>)
    ensures
        r@ == newest_first(ms@),
{
    let mut sorted: Vec<SmsMessage> = Vec::new();
    let mut i: usize = 0;
    while i < ms.len()
        invariant
            0 <= i <= ms.len(),
            sorted@ == newest_first(ms@.take(i as int)),
        decreases ms.len() - i,
    {
        let m = ms[i].clone();
        let t = chars_of(m.received_at.as_str());
        let mut k: usize = 0;
        while k < sorted.len()
            invariant_except_break
                0 <= k <= sorted.len(),
                t@ == m.received_at@,
                join_pos_from(sorted@, m, 0) == join_pos_from(sorted@, m, k as int),
            ensures
                k <= sorted.len(),
                join_pos_from(sorted@, m, 0) == k,
            decreases sorted.len() - k,
        {
            let other = chars_of(sorted[k].received_at.as_str());
            assert(other@ == sorted@[k as int].received_at@);
            if text_less(&other, &t) {
                break;
            }
            k = k + 1;
        }
        proof {
            assert(ms@.take(i + 1).drop_last() =~= ms@.take(i as int));
            assert(ms@.take(i + 1).last() == m);
        }
        sorted.insert(k, m);
        i = i + 1;
    }
    assert(ms@.take(ms.len() as int) =~= ms@);
    sorted
}

// ---------------------------------------------------------------------------
// Devices.
// ---------------------------------------------------------------------------

/// First device at or after `i` that is a Windows MBN interface able to receive SMS.
pub open spec fn native_receiver_from(ds: Seq<CellularDevice>, i: int) -> Option<int>
    decreases ds.len() - i,
{
    if i < 0 || i >= ds.len() {
        None
    } else if ds[i].kind@ == "windows-mbn"@ && ds[i].capabilities.sms_receive {
        Some(i)
    } else {
        native_receiver_from(ds, i + 1)
    }
}

pub proof fn lemma_native_receiver_from(ds: Seq<CellularDevice>, i: int)
    requires
        0 <= i,
    ensures
        native_receiver_from(ds, i) matches Some(k) ==> i <= k < ds.len(),
    decreases ds.len() - i,
{
    if i < ds.len() && !(ds[i].kind@ == "windows-mbn"@ && ds[i].capabilities.sms_receive) {
        lemma_native_receiver_from(ds, i + 1);
    }
}

/// The device selected by default: the first native MBN device that can
/// receive SMS, else the first device.
pub open spec fn preferred_device(ds: Seq<CellularDevice>) -> Option<Seq<char>> {
    match native_receiver_from(ds, 0) {
        Some(k) => Some(ds[k].id@),
        None => if ds.len() > 0 {
            Some(ds[0].id@)
        } else {
            None
        },
    }
}

pub fn preferred_device_id(devices: &[CellularDevice]) -> (r: Option<String>)
    ensures
        opt_chars(r) == preferred_device(devices@),
{
    let mut i: usize = 0;
    while i < devices.len()
        invariant
            0 <= i <= devices.len(),
            native_receiver_from(devices@, 0) == native_receiver_from(devices@, i as int),
        decreases devices.len() - i,
    {
        let d = &devices[i];
        let kind = chars_of(d.kind.as_str());
        if crate::text::chars_eq_str(&kind, "windows-mbn") && d.capabilities.sms_receive {
            return Some(d.id.clone());
        }
        i = i + 1;
    }
    if devices.len() > 0 {
        Some(devices[0].id.clone())
    } else {
        None
    }
}

/// First device at or after `i` with the id `id`.
pub open spec fn device_index_from(ds: Seq<CellularDevice>, id: Seq<char>, i: int) -> Option<int>
    decreases ds.len() - i,
{
    if i < 0 || i >= ds.len() {
        None
    } else if ds[i].id@ == id {
        Some(i)
    } else {
        device_index_from(ds, id, i + 1)
    }
}

pub proof fn lemma_device_index_from(ds: Seq<CellularDevice>, id: Seq<char>, i: int)
    requires
        0 <= i,
    ensures
        device_index_from(ds, id, i) matches Some(k) ==> i <= k < ds.len() && ds[k].id@ == id,
        device_index_from(ds, id, i) is None ==> forall|j: int|
            i <= j < ds.len() ==> #[trigger] ds[j].id@ != id,
    decreases ds.len() - i,
{
    if i < ds.len() && ds[i].id@ != id {
        lemma_device_index_from(ds, id, i + 1);
    }
}

/// First earlier device at or after `i` with this id that had been shown to receive SMS.
pub open spec fn trusted_from(prev: Seq<CellularDevice>, id: Seq<char>, i: int) -> Option<int>
    decreases prev.len() - i,
{
    if i < 0 || i >= prev.len() {
        None
    } else if prev[i].id@ == id && prev[i].capabilities.sms_receive {
        Some(i)
    } else {
        trusted_from(prev, id, i + 1)
    }
}

pub proof fn lemma_trusted_from(prev: Seq<CellularDevice>, id: Seq<char>, i: int)
    requires
        0 <= i,
    ensures
        trusted_from(prev, id, i) matches Some(k) ==> i <= k < prev.len() && prev[k].id@ == id
            && prev[k].capabilities.sms_receive,
    decreases prev.len() - i,
{
    if i < prev.len() && !(prev[i].id@ == id && prev[i].capabilities.sms_receive) {
        lemma_trusted_from(prev, id, i + 1);
    }
}

/// A rediscovered device: an AT port that an earlier probe had shown to
/// receive SMS keeps that finding, with the status, operator and signal then read.
pub open spec fn refreshed_device(d: CellularDevice, prev: Seq<CellularDevice>) -> CellularDevice {
    if d.kind@ == "at"@ {
        match trusted_from(prev, d.id@, 0) {
            Some(k) => CellularDevice {
                capabilities: DeviceCapabilities { sms_receive: true, ..d.capabilities },
                status: prev[k].status,
                operator: prev[k].operator,
                signal: prev[k].signal,
                ..d
            },
            None => d,
        }
    } else {
        d
    }
}

pub open spec fn refreshed_devices(ds: Seq<CellularDevice>, prev: Seq<CellularDevice>) -> Seq<
    CellularDevice,
> {
    ds.map_values(|d: CellularDevice| refreshed_device(d, prev))
}

pub open spec fn has_device(ds: Seq<CellularDevice>, id: Seq<char>) -> bool {
    exists|i: int| 0 <= i < ds.len() && #[trigger] ds[i].id@ == id
}

/// The selection after a refresh: the earlier one while its device is still
/// there, else the preferred device.
pub open spec fn reselected(prev: Option<Seq<char>>, ds: Seq<CellularDevice>) -> Option<Seq<char>> {
    match prev {
        Some(id) => if has_device(ds, id) {
            Some(id)
        } else {
            preferred_device(ds)
        },
        None => preferred_device(ds),
    }
}

/// A device after a successful poll: connected, able to receive SMS, and
/// carrying the operator and signal the poll read where it read them.
pub open spec fn polled_device(
    before: CellularDevice,
    after: CellularDevice,
    operator: Option<String>,
    signal: Option<u8>,
) -> bool {
    &&& after.id == before.id
    &&& after.label == before.label
    &&& after.kind == before.kind
    &&& after.model == before.model
    &&& after.network_class == before.network_class
    &&& after.status@ == "connected"@
    &&& after.capabilities == (DeviceCapabilities { sms_receive: true, ..before.capabilities })
    &&& after.operator == (if operator is Some {
        operator
    } else {
        before.operator
    })
    &&& after.signal == (if signal is Some {
        signal
    } else {
        before.signal
    })
}

/// The devices after polling `id`: the first device with that id is updated
/// as `polled_device` says, the others are unchanged.
pub open spec fn devices_after_poll(
    before: Seq<CellularDevice>,
    after: Seq<CellularDevice>,
    id: Seq<char>,
    operator: Option<String>,
    signal: Option<u8>,
) -> bool {
    match device_index_from(before, id, 0) {
        None => after == before,
        Some(k) => {
            &&& after.len() == before.len()
            &&& forall|j: int| 0 <= j < before.len() && j != k ==> #[trigger] after[j] == before[j]
            &&& polled_device(before[k], after[k], operator, signal)
        },
    }
}

// ---------------------------------------------------------------------------
// Messages and profiles.
// ---------------------------------------------------------------------------

/// Every message from `sender` marked read, archived ones included.
pub open spec fn sender_marked_read(ms: Seq<SmsMessage>, sender: Seq<char>) -> Seq<SmsMessage> {
    ms.map_values(
        |m: SmsMessage|
            if m.sender@ == sender {
                SmsMessage { unread: false, ..m }
            } else {
                m
            },
    )
}

/// First profile at or after `i` with the id `id`.
pub open spec fn profile_index_from(ps: Seq<EsimProfileView>, id: Seq<char>, i: int) -> Option<int>
    decreases ps.len() - i,
{
    if i < 0 || i >= ps.len() {
        None
    } else if ps[i].id == id {
        Some(i)
    } else {
        profile_index_from(ps, id, i + 1)
    }
}

pub proof fn lemma_profile_index_from(ps: Seq<EsimProfileView>, id: Seq<char>, i: int)
    requires
        0 <= i,
    ensures
        profile_index_from(ps, id, i) matches Some(k) ==> i <= k < ps.len() && ps[k].id == id,
        profile_index_from(ps, id, i) is None ==> forall|j: int|
            i <= j < ps.len() ==> #[trigger] ps[j].id != id,
    decreases ps.len() - i,
{
    if i < ps.len() && ps[i].id != id {
        lemma_profile_index_from(ps, id, i + 1);
    }
}

/// A saved profile replaces the first one with its id, or goes to the front.
pub open spec fn upserted(ps: Seq<EsimProfileView>, p: EsimProfileView) -> Seq<EsimProfileView> {
    match profile_index_from(ps, p.id, 0) {
        Some(k) => ps.update(k, p),
        None => seq![p] + ps,
    }
}

/// The profiles without those with the id `id`.
pub open spec fn without_profile(ps: Seq<EsimProfileView>, id: Seq<char>) -> Seq<EsimProfileView>
    decreases ps.len(),
{
    if ps.len() == 0 {
        ps
    } else {
        let rest = without_profile(ps.drop_last(), id);
        if ps.last().id == id {
            rest
        } else {
            rest.push(ps.last())
        }
    }
}

// ---------------------------------------------------------------------------
// A receive poll.
// ---------------------------------------------------------------------------

/// What pushing one SMS into the assembler gives: the groups after it and the
/// completed message, if any (the function that `push_outcome` describes).
pub open spec fn push_step(before: Seq<PendingView>, incoming: IncomingSms, now: u64) -> (
    Seq<PendingView>,
    Result<Option<CompleteView>, Seq<char>>,
) {
    let fresh = keep_fresh(before, now);
    match incoming.concatenation {
        None => (fresh, Ok(Some(single_part(incoming)))),
        Some(c) => if !valid_concatenation(c) {
            (fresh, Err("invalid multipart SMS sequence metadata"@))
        } else {
            let (filed, k) = file_part(fresh, incoming, c, now);
            if all_filled(filed[k].parts) {
                (filed.remove(k), Ok(Some(assembled(filed[k]))))
            } else {
                (filed, Ok(None))
            }
        },
    }
}

pub proof fn lemma_push_step(
    before: Seq<PendingView>,
    incoming: IncomingSms,
    now: u64,
    after: Seq<PendingView>,
    r: Result<Option<CompleteView>, Seq<char>>,
)
    requires
        push_outcome(before, incoming, now, after, r),
    ensures
        (after, r) == push_step(before, incoming, now),
{
}

/// The stored form of a complete SMS whose timestamp is `received_at`.
pub open spec fn stored_view(c: CompleteView, received_at: Seq<char>) -> SmsView {
    SmsView {
        id: uuid_v5_oid_text(identity_text(c)),
        sender: c.sender,
        body: c.body,
        received_at,
        unread: true,
        archived: false,
        category: category_of(c.body, extracted_code(c.body) is Some),
        code: extracted_code(c.body),
        slot: None,
    }
}

pub proof fn lemma_stored_view(c: CompleteView, m: SmsMessage, received_at: Seq<char>)
    requires
        stored_message(c, m, received_at),
    ensures
        m@ == stored_view(c, received_at),
{
}

pub open spec fn has_message_id(ms: Seq<SmsView>, id: Seq<char>) -> bool {
    exists|i: int| 0 <= i < ms.len() && #[trigger] ms[i].id == id
}

/// Feeding a poll's SMS to the assembler one by one: each complete message
/// goes to the front of the list unless a message with its id is stored
/// already. The first assembler error ends the poll with that error.
/// Returns the groups, the messages, and whether anything was stored (or the error).
pub open spec fn poll_fold(
    pending: Seq<PendingView>,
    msgs: Seq<SmsView>,
    inserted: bool,
    incoming: Seq<IncomingSms>,
    now: u64,
    clock_text: Seq<char>,
) -> (Seq<PendingView>, Seq<SmsView>, Result<bool, Seq<char>>)
    decreases incoming.len(),
{
    if incoming.len() == 0 {
        (pending, msgs, Ok(inserted))
    } else {
        let (after, r) = push_step(pending, incoming[0], now);
        match r {
            Err(e) => (after, msgs, Err(e)),
            Ok(None) => poll_fold(after, msgs, inserted, incoming.drop_first(), now, clock_text),
            Ok(Some(c)) => {
                let v = stored_view(c, stored_time(c, clock_text));
                if has_message_id(msgs, v.id) {
                    poll_fold(after, msgs, inserted, incoming.drop_first(), now, clock_text)
                } else {
                    poll_fold(
                        after,
                        seq![v] + msgs,
                        true,
                        incoming.drop_first(),
                        now,
                        clock_text,
                    )
                }
            },
        }
    }
}

/// The newest `MESSAGE_LIMIT` messages.
pub open spec fn capped<A>(ms: Seq<A>) -> Seq<A> {
    if ms.len() > MESSAGE_LIMIT {
        ms.take(MESSAGE_LIMIT as int)
    } else {
        ms
    }
}

/// The whole application state.
pub struct AppState {
    devices: Vec<CellularDevice>,
    selected_device_id: Option<String>,
    messages: Vec<SmsMessage>,
    profiles: Vec<EsimProfile>,
    assembler: MultipartAssembler,
}

/// What a poll of `device_id` that read `poll` at `now` does to the state, and
/// what it returns: the device is marked as receiving and selected, then the
/// SMS are assembled and stored as `poll_fold` says; a poll that ends well
/// keeps the newest `MESSAGE_LIMIT` messages.
pub open spec fn poll_applied(
    before: AppState,
    after: AppState,
    device_id: Seq<char>,
    poll: AtPoll,
    now: u64,
    clock_text: Seq<char>,
    r: Result<bool, String>,
) -> bool {
    let (p, ms, outcome) = poll_fold(
        before.pending(),
        sms_views(before.stored()),
        false,
        poll.messages@,
        now,
        clock_text,
    );
    &&& devices_after_poll(
        before.devices(),
        after.devices(),
        device_id,
        poll.operator,
        poll.signal,
    )
    &&& after.selected() == Some(device_id)
    &&& after.profiles() == before.profiles()
    &&& after.pending() == p
    &&& after.well_formed()
    &&& match outcome {
        Ok(ins) => r == Ok::<bool, String>(ins) && sms_views(after.stored()) == capped(ms),
        Err(e) => r matches Err(x) && x@ == e && sms_views(after.stored()) == ms,
    }
}

impl AppState {
    pub closed spec fn devices(&self) -> Seq<CellularDevice> {
        self.devices@
    }

    pub closed spec fn selected(&self) -> Option<Seq<char>> {
        opt_chars(self.selected_device_id)
    }

    pub closed spec fn stored(&self) -> Seq<SmsMessage> {
        self.messages@
    }

    pub closed spec fn profiles(&self) -> Seq<EsimProfileView> {
        profile_views(self.profiles@)
    }

    pub closed spec fn pending(&self) -> Seq<PendingView> {
        self.assembler.pending()
    }

    pub closed spec fn well_formed(&self) -> bool {
        self.assembler.well_formed()
    }

    /// The pending groups of a well-formed state have one slot per part and
    /// at most one group per multipart message.
    pub proof fn lemma_pending_well_formed(&self)
        requires
            self.well_formed(),
        ensures
            groups_well_formed(self.pending()),
    {
        self.assembler.lemma_groups_well_formed();
    }

    /// The state at start-up: the stored messages newest first, the profiles,
    /// the discovered devices and the preferred one selected.
    pub fn new(messages: Vec<SmsMessage>, profiles: Vec<EsimProfile>, devices: Vec<CellularDevice>) -> (s: Self)
        ensures
            s.stored() == newest_first(messages@),
            s.profiles() == profile_views(profiles@),
            s.devices() == devices@,
            s.selected() == preferred_device(devices@),
            s.pending() == Seq::<PendingView>::empty(),
            s.well_formed(),
    {
        let sorted = sort_newest_first(&messages);
        let selected_device_id = preferred_device_id(devices.as_slice());
        AppState {
            devices,
            selected_device_id,
            messages: sorted,
            profiles,
            assembler: MultipartAssembler::default(),
        }
    }

    /// Everything the UI shows, with the runtime capabilities read by the caller.
    pub fn snapshot(&self, runtime: RuntimeCapabilities) -> (snap: AppSnapshot)
        ensures
            snap.devices@ == self.devices(),
            opt_chars(snap.selected_device_id) == self.selected(),
            snap.active_sms_listener_device_id is None,
            snap.messages@ == self.stored(),
            profile_views(snap.esim_profiles@) == self.profiles(),
            snap.runtime == runtime,
    {
        let mut devices: Vec<CellularDevice> = Vec::new();
        let mut i: usize = 0;
        while i < self.devices.len()
            invariant
                0 <= i <= self.devices.len(),
                devices@ == self.devices@.take(i as int),
            decreases self.devices.len() - i,
        {
            devices.push(self.devices[i].clone());
            assert(devices@ =~= self.devices@.take(i + 1));
            i = i + 1;
        }
        assert(self.devices@.take(self.devices.len() as int) =~= self.devices@);
        let mut messages: Vec<SmsMessage> = Vec::new();
        let mut j: usize = 0;
        while j < self.messages.len()
            invariant
                0 <= j <= self.messages.len(),
                messages@ == self.messages@.take(j as int),
            decreases self.messages.len() - j,
        {
            messages.push(self.messages[j].clone());
            assert(messages@ =~= self.messages@.take(j + 1));
            j = j + 1;
        }
        assert(self.messages@.take(self.messages.len() as int) =~= self.messages@);
        let mut profiles: Vec<EsimProfile> = Vec::new();
        let mut k: usize = 0;
        while k < self.profiles.len()
            invariant
                0 <= k <= self.profiles.len(),
                profile_views(profiles@) == profile_views(self.profiles@.take(k as int)),
            decreases self.profiles.len() - k,
        {
            let p = self.profiles[k].clone();
            let ghost before = profile_views(profiles@);
            profiles.push(p);
            assert(profile_views(profiles@) =~= before.push(p@));
            assert(profile_views(self.profiles@.take(k + 1)) =~= profile_views(
                self.profiles@.take(k as int),
            ).push(self.profiles@[k as int]@));
            k = k + 1;
        }
        assert(self.profiles@.take(self.profiles.len() as int) =~= self.profiles@);
        AppSnapshot {
            devices,
            selected_device_id: clone_opt_string(&self.selected_device_id),
            active_sms_listener_device_id: None,
            messages,
            esim_profiles: profiles,
            runtime,
        }
    }

    /// The stored messages, newest first, as they are written to disk.
    pub fn stored_messages(&self) -> (r: Vec<SmsMessage>)
        ensures
            r@ == self.stored(),
    {
        let mut messages: Vec<SmsMessage> = Vec::new();
        let mut j: usize = 0;
        while j < self.messages.len()
            invariant
                0 <= j <= self.messages.len(),
                messages@ == self.messages@.take(j as int),
            decreases self.messages.len() - j,
        {
            messages.push(self.messages[j].clone());
            assert(messages@ =~= self.messages@.take(j + 1));
            j = j + 1;
        }
        assert(self.messages@.take(self.messages.len() as int) =~= self.messages@);
        messages
    }

    /// The saved eSIM profiles, as they are written to disk.
    pub fn saved_profiles(&self) -> (r: Vec<EsimProfile>)
        ensures
            profile_views(r@) == self.profiles(),
    {
        let mut profiles: Vec<EsimProfile> = Vec::new();
        let mut k: usize = 0;
        while k < self.profiles.len()
            invariant
                0 <= k <= self.profiles.len(),
                profile_views(profiles@) == profile_views(self.profiles@.take(k as int)),
            decreases self.profiles.len() - k,
        {
            let p = self.profiles[k].clone();
            let ghost before = profile_views(profiles@);
            profiles.push(p);
            assert(profile_views(profiles@) =~= before.push(p@));
            assert(profile_views(self.profiles@.take(k + 1)) =~= profile_views(
                self.profiles@.take(k as int),
            ).push(self.profiles@[k as int]@));
            k = k + 1;
        }
        assert(self.profiles@.take(self.profiles.len() as int) =~= self.profiles@);
        profiles
    }

    fn find_message(&self, id: &str) -> (r: Option<usize>)
        ensures
            r matches Some(k) ==> find_id_from(self.stored(), id@, 0) == Some(k as int) && k
                < self.stored().len(),
            r is None ==> find_id_from(self.stored(), id@, 0) is None,
    {
        let target = str_to_string(id);
        let mut i: usize = 0;
        while i < self.messages.len()
            invariant
                0 <= i <= self.messages.len(),
                target@ == id@,
                find_id_from(self.messages@, id@, 0) == find_id_from(self.messages@, id@, i as int),
            decreases self.messages.len() - i,
        {
            if self.messages[i].id == target {
                return Some(i);
            }
            i = i + 1;
        }
        None
    }

    /// Archives or restores the first message with this id; archiving also marks it read.
    pub fn archive_message(&mut self, id: &str, archived: bool)
        ensures
            final(self).stored() == set_archived_effect(old(self).stored(), id@, archived),
            final(self).devices() == old(self).devices(),
            final(self).selected() == old(self).selected(),
            final(self).profiles() == old(self).profiles(),
            final(self).pending() == old(self).pending(),
            final(self).well_formed() == old(self).well_formed(),
    {
        if let Some(k) = self.find_message(id) {
            proof {
                lemma_find_id_from(self.messages@, id@, 0);
            }
            let mut m = self.messages[k].clone();
            m.archived = archived;
            if archived {
                m.unread = false;
            }
            self.messages.set(k, m);
        }
    }

    /// Marks every message from `sender` read.
    pub fn mark_sender_read(&mut self, sender: &str)
        ensures
            final(self).stored() == sender_marked_read(old(self).stored(), sender@),
            final(self).devices() == old(self).devices(),
            final(self).selected() == old(self).selected(),
            final(self).profiles() == old(self).profiles(),
            final(self).pending() == old(self).pending(),
            final(self).well_formed() == old(self).well_formed(),
    {
        let ghost orig = self.messages@;
        let target = str_to_string(sender);
        let mut i: usize = 0;
        while i < self.messages.len()
            invariant
                0 <= i <= self.messages.len(),
                self.messages.len() == orig.len(),
                target@ == sender@,
                self.devices@ == old(self).devices@,
                self.selected_device_id == old(self).selected_device_id,
                self.profiles@ == old(self).profiles@,
                self.assembler == old(self).assembler,
                forall|k: int|
                    0 <= k < i ==> #[trigger] self.messages@[k] == sender_marked_read(
                        orig,
                        sender@,
                    )[k],
                forall|k: int| i <= k < orig.len() ==> #[trigger] self.messages@[k] == orig[k],
            decreases self.messages.len() - i,
        {
            if self.messages[i].sender == target {
                let mut m = self.messages[i].clone();
                m.unread = false;
                self.messages.set(i, m);
            }
            i = i + 1;
        }
        assert(self.messages@ =~= sender_marked_read(orig, sender@));
    }

    /// Saves a profile: it replaces the profile with its id, or is added in front.
    pub fn upsert_profile(&mut self, profile: EsimProfile)
        ensures
            final(self).profiles() == upserted(old(self).profiles(), profile@),
            final(self).stored() == old(self).stored(),
            final(self).devices() == old(self).devices(),
            final(self).selected() == old(self).selected(),
            final(self).pending() == old(self).pending(),
            final(self).well_formed() == old(self).well_formed(),
    {
        let ghost ps = profile_views(self.profiles@);
        let mut i: usize = 0;
        while i < self.profiles.len()
            invariant
                0 <= i <= self.profiles.len(),
                ps == profile_views(self.profiles@),
                self.profiles@ == old(self).profiles@,
                self.messages@ == old(self).messages@,
                self.devices@ == old(self).devices@,
                self.selected_device_id == old(self).selected_device_id,
                self.assembler == old(self).assembler,
                profile_index_from(ps, profile@.id, 0) == profile_index_from(
                    ps,
                    profile@.id,
                    i as int,
                ),
            decreases self.profiles.len() - i,
        {
            assert(ps[i as int] == self.profiles@[i as int]@);
            if self.profiles[i].id == profile.id {
                let ghost pv = profile@;
                assert(ps[i as int].id == pv.id);
                assert(profile_index_from(ps, pv.id, i as int) == Some(i as int));
                self.profiles.set(i, profile);
                assert(profile_views(self.profiles@) =~= ps.update(i as int, pv));
                assert(upserted(ps, pv) == ps.update(i as int, pv));
                return;
            }
            i = i + 1;
        }
        let ghost pv = profile@;
        self.profiles.insert(0, profile);
        assert(profile_views(self.profiles@) =~= seq![pv] + ps);
    }

    /// Removes every profile with this id.
    pub fn delete_profile(&mut self, id: &str)
        ensures
            final(self).profiles() == without_profile(old(self).profiles(), id@),
            final(self).stored() == old(self).stored(),
            final(self).devices() == old(self).devices(),
            final(self).selected() == old(self).selected(),
            final(self).pending() == old(self).pending(),
            final(self).well_formed() == old(self).well_formed(),
    {
        let ghost ps = profile_views(self.profiles@);
        let target = str_to_string(id);
        let mut kept: Vec<EsimProfile> = Vec::new();
        let mut rest: Vec<EsimProfile> = Vec::new();
        std::mem::swap(&mut rest, &mut self.profiles);
        let mut i: usize = 0;
        let ghost all = rest@;
        assert(all.len() == rest.len());
        assert(profile_views(all) == ps);
        while rest.len() > 0
            invariant
                0 <= i <= all.len(),
                all.len() <= usize::MAX,
                i + rest.len() == all.len(),
                rest@ == all.subrange(i as int, all.len() as int),
                self.messages@ == old(self).messages@,
                self.devices@ == old(self).devices@,
                self.selected_device_id == old(self).selected_device_id,
                self.assembler == old(self).assembler,
                profile_views(kept@) == without_profile(profile_views(all.take(i as int)), id@),
                target@ == id@,
            decreases rest.len(),
        {
            let p = rest.remove(0);
            assert(p == all[i as int]);
            let ghost prev = profile_views(kept@);
            assert(profile_views(all.take(i + 1)).drop_last() =~= profile_views(
                all.take(i as int),
            ));
            assert(profile_views(all.take(i + 1)).last() == p@);
            if p.id != target {
                kept.push(p);
                assert(profile_views(kept@) =~= prev.push(p@));
            }
            i = i + 1;
            assert(rest@ =~= all.subrange(i as int, all.len() as int));
        }
        assert(all.take(i as int) =~= all);
        self.profiles = kept;
    }

    /// Takes a fresh device list: AT ports that an earlier probe showed to
    /// receive SMS keep that finding, and the selection stays where it can.
    pub fn refresh_devices(&mut self, refreshed: Vec<CellularDevice>)
        ensures
            final(self).devices() == refreshed_devices(refreshed@, old(self).devices()),
            final(self).selected() == reselected(
                old(self).selected(),
                refreshed_devices(refreshed@, old(self).devices()),
            ),
            final(self).stored() == old(self).stored(),
            final(self).profiles() == old(self).profiles(),
            final(self).pending() == old(self).pending(),
            final(self).well_formed() == old(self).well_formed(),
    {
        let ghost prev = self.devices@;
        let mut merged: Vec<CellularDevice> = Vec::new();
        let mut i: usize = 0;
        while i < refreshed.len()
            invariant
                0 <= i <= refreshed.len(),
                prev == self.devices@,
                merged@ == refreshed_devices(refreshed@.take(i as int), prev),
            decreases refreshed.len() - i,
        {
            let mut d = refreshed[i].clone();
            let kind = chars_of(d.kind.as_str());
            if crate::text::chars_eq_str(&kind, "at") {
                let mut k: usize = 0;
                while k < self.devices.len()
                    invariant_except_break
                        0 <= k <= self.devices.len(),
                        prev == self.devices@,
                        trusted_from(prev, d.id@, 0) == trusted_from(prev, d.id@, k as int),
                    ensures
                        prev == self.devices@,
                        (k < self.devices.len() && trusted_from(prev, d.id@, 0) == Some(k as int))
                            || (k == self.devices.len() && trusted_from(prev, d.id@, 0) is None),
                    decreases self.devices.len() - k,
                {
                    let old_device = &self.devices[k];
                    if old_device.id == d.id && old_device.capabilities.sms_receive {
                        break;
                    }
                    k = k + 1;
                }
                if k < self.devices.len() {
                    let old_device = &self.devices[k];
                    d.capabilities.sms_receive = true;
                    d.status = old_device.status.clone();
                    d.operator = clone_opt_string(&old_device.operator);
                    d.signal = old_device.signal;
                }
            }
            proof {
                assert(refreshed@.take(i + 1) =~= refreshed@.take(i as int).push(refreshed@[i as int]));
            }
            let ghost before = merged@;
            merged.push(d);
            assert(merged@ =~= refreshed_devices(refreshed@.take(i + 1), prev));
            i = i + 1;
        }
        assert(refreshed@.take(refreshed.len() as int) =~= refreshed@);
        let ghost ds = merged@;
        let mut keep = false;
        match &self.selected_device_id {
            Some(id) => {
                let mut j: usize = 0;
                while j < merged.len()
                    invariant
                        0 <= j <= merged.len(),
                        merged@ == ds,
                        keep ==> has_device(ds, id@),
                        !keep ==> forall|x: int| 0 <= x < j ==> #[trigger] ds[x].id@ != id@,
                    decreases merged.len() - j,
                {
                    if merged[j].id == *id {
                        assert(ds[j as int].id@ == id@);
                        keep = true;
                    }
                    j = j + 1;
                }
                proof {
                    if !keep {
                        assert(!has_device(ds, id@));
                    }
                }
            },
            None => {},
        }
        if !keep {
            self.selected_device_id = preferred_device_id(merged.as_slice());
        }
        self.devices = merged;
    }

    fn has_message_with_id(&self, id: &String) -> (b: bool)
        ensures
            b == has_message_id(sms_views(self.stored()), id@),
    {
        let mut i: usize = 0;
        while i < self.messages.len()
            invariant
                0 <= i <= self.messages.len(),
                forall|k: int| 0 <= k < i ==> #[trigger] self.messages@[k].id@ != id@,
            decreases self.messages.len() - i,
        {
            if self.messages[i].id == *id {
                assert(sms_views(self.messages@)[i as int].id == id@);
                return true;
            }
            i = i + 1;
        }
        proof {
            assert forall|k: int| 0 <= k < self.messages@.len() implies #[trigger] sms_views(
                self.messages@,
            )[k].id != id@ by {
                assert(sms_views(self.messages@)[k] == self.messages@[k]@);
            }
        }
        false
    }

    fn find_device(&self, id: &str) -> (r: Option<usize>)
        ensures
            r matches Some(k) ==> device_index_from(self.devices(), id@, 0) == Some(k as int) && k
                < self.devices().len(),
            r is None ==> device_index_from(self.devices(), id@, 0) is None,
    {
        let target = str_to_string(id);
        let mut i: usize = 0;
        while i < self.devices.len()
            invariant
                0 <= i <= self.devices.len(),
                target@ == id@,
                device_index_from(self.devices@, id@, 0) == device_index_from(
                    self.devices@,
                    id@,
                    i as int,
                ),
            decreases self.devices.len() - i,
        {
            if self.devices[i].id == target {
                return Some(i);
            }
            i = i + 1;
        }
        None
    }

    fn note_polled_device(&mut self, device_id: &str, operator: &Option<String>, signal: Option<u8>)
        ensures
            devices_after_poll(old(self).devices(), final(self).devices(), device_id@, *operator, signal),
            final(self).selected() == Some(device_id@),
            final(self).stored() == old(self).stored(),
            final(self).profiles() == old(self).profiles(),
            final(self).pending() == old(self).pending(),
            final(self).well_formed() == old(self).well_formed(),
    {
        let target = str_to_string(device_id);
        if let Some(i) = self.find_device(device_id) {
            proof {
                lemma_device_index_from(self.devices@, device_id@, 0);
            }
            let mut d = self.devices[i].clone();
            d.status = str_to_string("connected");
            d.capabilities.sms_receive = true;
            if operator.is_some() {
                d.operator = clone_opt_string(operator);
            }
            if signal.is_some() {
                d.signal = signal;
            }
            self.devices.set(i, d);
        }
        self.selected_device_id = Some(target);
    }

    /// Applies a poll of `device_id` that read `poll`, with the assembler's
    /// clock at `now` and `clock_text` as the time of arrival for messages
    /// whose provider gave none. Returns whether any message was stored.
    pub fn poll_sms_device_at(
        &mut self,
        device_id: &str,
        poll: AtPoll,
        now: u64,
        clock_text: String,
    ) -> (r: Result<bool, String>)
        requires
            old(self).well_formed(),
        ensures
            poll_applied(*old(self), *final(self), device_id@, poll, now, clock_text@, r),
    {
        let ghost start = *self;
        self.note_polled_device(device_id, &poll.operator, poll.signal);
        let ghost all = poll.messages@;
        let ghost target = poll_fold(
            start.pending(),
            sms_views(start.stored()),
            false,
            all,
            now,
            clock_text@,
        );
        let mut rest = poll.messages;
        let mut inserted = false;
        while rest.len() > 0
            invariant
                self.well_formed(),
                devices_after_poll(
                    start.devices(),
                    self.devices(),
                    device_id@,
                    poll.operator,
                    poll.signal,
                ),
                self.selected() == Some(device_id@),
                self.profiles() == start.profiles(),
                start == *old(self),
                target == poll_fold(
                    start.pending(),
                    sms_views(start.stored()),
                    false,
                    poll.messages@,
                    now,
                    clock_text@,
                ),
                target == poll_fold(
                    self.pending(),
                    sms_views(self.stored()),
                    inserted,
                    rest@,
                    now,
                    clock_text@,
                ),
            decreases rest.len(),
        {
            let ghost before_pending = self.pending();
            let ghost before_msgs = sms_views(self.stored());
            let ghost inc = rest@[0];
            let ghost old_rest = rest@;
            let incoming = rest.remove(0);
            assert(old_rest.drop_first() =~= rest@);
            let step = self.assembler.push_at(incoming, now);
            proof {
                lemma_push_step(before_pending, inc, now, self.assembler.pending(), result_view(step));
            }
            match step {
                Err(e) => {
                    assert(poll_fold(before_pending, before_msgs, inserted, old_rest, now, clock_text@)
                        == (self.pending(), before_msgs, Err::<bool, Seq<char>>(e@)));
                    return Err(e);
                },
                Ok(None) => {},
                Ok(Some(complete)) => {
                    let ghost cv = complete@;
                    let message = message_from_complete_at(complete, clock_text.clone());
                    proof {
                        lemma_stored_view(cv, message, stored_time(cv, clock_text@));
                    }
                    if !self.has_message_with_id(&message.id) {
                        let ghost mv = message@;
                        self.messages.insert(0, message);
                        assert(sms_views(self.messages@) =~= seq![mv] + before_msgs);
                        inserted = true;
                    }
                },
            }
        }
        if self.messages.len() > MESSAGE_LIMIT {
            let ghost full = self.messages@;
            self.messages.truncate(MESSAGE_LIMIT);
            assert(sms_views(self.messages@) =~= sms_views(full).take(MESSAGE_LIMIT as int));
        }
        Ok(inserted)
    }

    /// Applies a poll of `device_id` at the current time; see `poll_sms_device_at`.
    pub fn poll_sms_device(&mut self, device_id: &str, poll: AtPoll) -> (r: Result<bool, String>)
        requires
            old(self).well_formed(),
        ensures
            exists|now: u64, clock_text: Seq<char>|
                poll_applied(*old(self), *final(self), device_id@, poll, now, clock_text, r),
    {
        let now = self.assembler.elapsed_ms();
        let clock_text = now_rfc3339();
        let ghost t = clock_text@;
        let r = self.poll_sms_device_at(device_id, poll, now, clock_text);
        assert(poll_applied(*old(self), *self, device_id@, poll, now, t, r));
        r
    }
}

// ---------------------------------------------------------------------------
// Laws.
// ---------------------------------------------------------------------------

/// No two stored messages share an id.
pub open spec fn ids_unique(ms: Seq<SmsView>) -> bool {
    forall|i: int, j: int| 0 <= i < j < ms.len() ==> #[trigger] ms[i].id != #[trigger] ms[j].id
}

/// A poll never stores two messages with the same id: where the stored ids
/// are distinct before, they are distinct after, capped or not.
pub proof fn lemma_poll_keeps_ids_unique(
    pending: Seq<PendingView>,
    msgs: Seq<SmsView>,
    inserted: bool,
    incoming: Seq<IncomingSms>,
    now: u64,
    clock_text: Seq<char>,
)
    requires
        ids_unique(msgs),
    ensures
        ids_unique(poll_fold(pending, msgs, inserted, incoming, now, clock_text).1),
        ids_unique(capped(poll_fold(pending, msgs, inserted, incoming, now, clock_text).1)),
    decreases incoming.len(),
{
    if incoming.len() > 0 {
        let (after, r) = push_step(pending, incoming[0], now);
        match r {
            Err(e) => {},
            Ok(None) => {
                lemma_poll_keeps_ids_unique(
                    after,
                    msgs,
                    inserted,
                    incoming.drop_first(),
                    now,
                    clock_text,
                );
            },
            Ok(Some(c)) => {
                let v = stored_view(c, stored_time(c, clock_text));
                if has_message_id(msgs, v.id) {
                    lemma_poll_keeps_ids_unique(
                        after,
                        msgs,
                        inserted,
                        incoming.drop_first(),
                        now,
                        clock_text,
                    );
                } else {
                    let grown = seq![v] + msgs;
                    assert forall|i: int, j: int| 0 <= i < j < grown.len() implies #[trigger] grown[i].id
                        != #[trigger] grown[j].id by {
                        if i == 0 {
                            assert(grown[j] == msgs[j - 1]);
                            assert(!has_message_id(msgs, v.id));
                        } else {
                            assert(grown[i] == msgs[i - 1] && grown[j] == msgs[j - 1]);
                        }
                    }
                    lemma_poll_keeps_ids_unique(
                        after,
                        grown,
                        true,
                        incoming.drop_first(),
                        now,
                        clock_text,
                    );
                }
            },
        }
    }
    let ms = poll_fold(pending, msgs, inserted, incoming, now, clock_text).1;
    assert forall|i: int, j: int| 0 <= i < j < capped(ms).len() implies #[trigger] capped(ms)[i].id
        != #[trigger] capped(ms)[j].id by {
        assert(capped(ms)[i] == ms[i] && capped(ms)[j] == ms[j]);
    }
}

/// A stored id stays stored through a poll.
pub proof fn lemma_poll_keeps_ids(
    pending: Seq<PendingView>,
    msgs: Seq<SmsView>,
    inserted: bool,
    incoming: Seq<IncomingSms>,
    now: u64,
    clock_text: Seq<char>,
    id: Seq<char>,
)
    requires
        has_message_id(msgs, id),
    ensures
        has_message_id(poll_fold(pending, msgs, inserted, incoming, now, clock_text).1, id),
    decreases incoming.len(),
{
    if incoming.len() > 0 {
        let (after, r) = push_step(pending, incoming[0], now);
        match r {
            Err(e) => {},
            Ok(None) => {
                lemma_poll_keeps_ids(after, msgs, inserted, incoming.drop_first(), now, clock_text, id);
            },
            Ok(Some(c)) => {
                let v = stored_view(c, stored_time(c, clock_text));
                if has_message_id(msgs, v.id) {
                    lemma_poll_keeps_ids(
                        after,
                        msgs,
                        inserted,
                        incoming.drop_first(),
                        now,
                        clock_text,
                        id,
                    );
                } else {
                    let grown = seq![v] + msgs;
                    let k = choose|k: int| 0 <= k < msgs.len() && #[trigger] msgs[k].id == id;
                    assert(grown[k + 1].id == id);
                    lemma_poll_keeps_ids(
                        after,
                        grown,
                        true,
                        incoming.drop_first(),
                        now,
                        clock_text,
                        id,
                    );
                }
            },
        }
    }
}

pub open spec fn all_single_part(incoming: Seq<IncomingSms>) -> bool {
    forall|i: int| 0 <= i < incoming.len() ==> (#[trigger] incoming[i]).concatenation is None
}

/// The id a single-part SMS is stored under; the time of arrival plays no part in it.
pub open spec fn single_part_id(m: IncomingSms) -> Seq<char> {
    uuid_v5_oid_text(identity_text(single_part(m)))
}

/// After a poll of single-part SMS, every one of them is stored.
pub proof fn lemma_poll_stores_single_parts(
    pending: Seq<PendingView>,
    msgs: Seq<SmsView>,
    inserted: bool,
    incoming: Seq<IncomingSms>,
    now: u64,
    clock_text: Seq<char>,
)
    requires
        all_single_part(incoming),
    ensures
        forall|i: int|
            0 <= i < incoming.len() ==> has_message_id(
                poll_fold(pending, msgs, inserted, incoming, now, clock_text).1,
                single_part_id(#[trigger] incoming[i]),
            ),
    decreases incoming.len(),
{
    if incoming.len() > 0 {
        let (after, r) = push_step(pending, incoming[0], now);
        let c = single_part(incoming[0]);
        let v = stored_view(c, stored_time(c, clock_text));
        let rest = incoming.drop_first();
        assert forall|i: int| 0 <= i < rest.len() implies (#[trigger] rest[i]).concatenation is None by {
            assert(rest[i] == incoming[i + 1]);
        }
        let next = if has_message_id(msgs, v.id) {
            msgs
        } else {
            seq![v] + msgs
        };
        let ins2 = if has_message_id(msgs, v.id) {
            inserted
        } else {
            true
        };
        assert(has_message_id(next, v.id)) by {
            if !has_message_id(msgs, v.id) {
                assert(next[0].id == v.id);
            }
        }
        lemma_poll_stores_single_parts(after, next, ins2, rest, now, clock_text);
        lemma_poll_keeps_ids(after, next, ins2, rest, now, clock_text, v.id);
        assert forall|i: int| 0 <= i < incoming.len() implies has_message_id(
            poll_fold(pending, msgs, inserted, incoming, now, clock_text).1,
            single_part_id(#[trigger] incoming[i]),
        ) by {
            if i > 0 {
                assert(incoming[i] == rest[i - 1]);
            }
        }
    }
}

/// A poll of single-part SMS that are all stored already stores nothing.
pub proof fn lemma_poll_of_stored_changes_nothing(
    pending: Seq<PendingView>,
    msgs: Seq<SmsView>,
    inserted: bool,
    incoming: Seq<IncomingSms>,
    now: u64,
    clock_text: Seq<char>,
)
    requires
        all_single_part(incoming),
        forall|i: int| 0 <= i < incoming.len() ==> has_message_id(msgs, single_part_id(#[trigger] incoming[i])),
    ensures
        poll_fold(pending, msgs, inserted, incoming, now, clock_text).1 == msgs,
        poll_fold(pending, msgs, inserted, incoming, now, clock_text).2 == Ok::<bool, Seq<char>>(inserted),
    decreases incoming.len(),
{
    if incoming.len() > 0 {
        let (after, r) = push_step(pending, incoming[0], now);
        let rest = incoming.drop_first();
        assert(has_message_id(msgs, single_part_id(incoming[0])));
        assert forall|i: int| 0 <= i < rest.len() implies (#[trigger] rest[i]).concatenation is None by {
            assert(rest[i] == incoming[i + 1]);
        }
        assert forall|i: int| 0 <= i < rest.len() implies has_message_id(msgs, single_part_id(#[trigger] rest[i])) by {
            assert(rest[i] == incoming[i + 1]);
        }
        lemma_poll_of_stored_changes_nothing(after, msgs, inserted, rest, now, clock_text);
    }
}

/// Polling the same single-part records again stores nothing new: their
/// identities do not depend on when they were read. (While the list stays
/// within `MESSAGE_LIMIT`, so that the cap drops none of them.)
pub proof fn lemma_repeated_poll_adds_nothing(
    pending: Seq<PendingView>,
    msgs: Seq<SmsView>,
    incoming: Seq<IncomingSms>,
    now1: u64,
    clock1: Seq<char>,
    now2: u64,
    clock2: Seq<char>,
)
    requires
        all_single_part(incoming),
        poll_fold(pending, msgs, false, incoming, now1, clock1).1.len() <= MESSAGE_LIMIT,
    ensures
        ({
            let (p1, m1, r1) = poll_fold(pending, msgs, false, incoming, now1, clock1);
            let (p2, m2, r2) = poll_fold(p1, capped(m1), false, incoming, now2, clock2);
            m2 == capped(m1) && r2 == Ok::<bool, Seq<char>>(false)
        }),
{
    let (p1, m1, r1) = poll_fold(pending, msgs, false, incoming, now1, clock1);
    lemma_poll_stores_single_parts(pending, msgs, false, incoming, now1, clock1);
    assert(capped(m1) == m1);
    lemma_poll_of_stored_changes_nothing(p1, m1, false, incoming, now2, clock2);
}

/// An AT port that an earlier probe showed to receive SMS keeps that finding
/// through a refresh of the device list.
pub proof fn lemma_refresh_keeps_probe_trust(
    ds: Seq<CellularDevice>,
    prev: Seq<CellularDevice>,
    i: int,
    k: int,
)
    requires
        0 <= i < ds.len(),
        0 <= k < prev.len(),
        ds[i].kind@ == "at"@,
        prev[k].id@ == ds[i].id@,
        prev[k].capabilities.sms_receive,
    ensures
        refreshed_devices(ds, prev)[i].capabilities.sms_receive,
{
    lemma_trusted_from(prev, ds[i].id@, 0);
    if trusted_from(prev, ds[i].id@, 0) is None {
        lemma_trusted_none(prev, ds[i].id@, 0, k);
    }
}

pub proof fn lemma_trusted_none(prev: Seq<CellularDevice>, id: Seq<char>, i: int, k: int)
    requires
        0 <= i <= k < prev.len(),
        prev[k].id@ == id,
        prev[k].capabilities.sms_receive,
    ensures
        trusted_from(prev, id, i) is Some,
    decreases k - i,
{
    if i < k && !(prev[i].id@ == id && prev[i].capabilities.sms_receive) {
        lemma_trusted_none(prev, id, i + 1, k);
    }
}

/// After a refresh the selection, if any, names a listed device, and there
/// is a selection whenever some device is listed.
pub proof fn lemma_selection_names_a_device(prev: Option<Seq<char>>, ds: Seq<CellularDevice>)
    ensures
        reselected(prev, ds) matches Some(id) ==> has_device(ds, id),
        ds.len() > 0 ==> reselected(prev, ds) is Some,
{
    lemma_native_receiver_from(ds, 0);
    match native_receiver_from(ds, 0) {
        Some(k) => {
            assert(ds[k].id@ == ds[k].id@);
        },
        None => {
            if ds.len() > 0 {
                assert(ds[0].id@ == ds[0].id@);
            }
        },
    }
}

/// After marking a sender read, no message from that sender is unread.
pub proof fn lemma_sender_read_clears_unread(ms: Seq<SmsMessage>, sender: Seq<char>)
    ensures
        forall|i: int|
            0 <= i < ms.len() && (#[trigger] sender_marked_read(ms, sender)[i]).sender@ == sender
                ==> !sender_marked_read(ms, sender)[i].unread,
        sender_marked_read(ms, sender).len() == ms.len(),
{
}

/// Marking a conversation read in the application state: every message of
/// the sender becomes read and keeps everything else, and every message of
/// any other sender stays exactly as it was; the list keeps its length and order.
pub proof fn lemma_conversation_read_touches_only_the_sender(ms: Seq<SmsMessage>, sender: Seq<char>)
    ensures
        sender_marked_read(ms, sender).len() == ms.len(),
        forall|k: int|
            0 <= k < ms.len() && ms[k].sender@ != sender ==> #[trigger] sender_marked_read(
                ms,
                sender,
            )[k] == ms[k],
        forall|k: int|
            0 <= k < ms.len() && ms[k].sender@ == sender ==> #[trigger] sender_marked_read(
                ms,
                sender,
            )[k] == (SmsMessage { unread: false, ..ms[k] }),
{
}

/// A saved profile can be found under its id afterwards, as saved.
pub proof fn lemma_upsert_then_found(ps: Seq<EsimProfileView>, p: EsimProfileView)
    ensures
        profile_index_from(upserted(ps, p), p.id, 0) matches Some(k) && upserted(ps, p)[k] == p,
{
    lemma_profile_index_from(ps, p.id, 0);
    match profile_index_from(ps, p.id, 0) {
        Some(k) => {
            let u = ps.update(k, p);
            lemma_profile_index_from(u, p.id, 0);
            lemma_profile_index_from_same(ps, u, p.id, 0, k);
        },
        None => {
            let u = seq![p] + ps;
            assert(u[0].id == p.id);
        },
    }
}

pub proof fn lemma_profile_index_from_same(
    ps: Seq<EsimProfileView>,
    u: Seq<EsimProfileView>,
    id: Seq<char>,
    i: int,
    k: int,
)
    requires
        0 <= i <= k < ps.len(),
        u == ps.update(k, u[k]),
        u.len() == ps.len(),
        u[k].id == id,
        profile_index_from(ps, id, i) == Some(k),
    ensures
        profile_index_from(u, id, i) == Some(k),
    decreases k - i,
{
    if i < k {
        assert(ps[i].id != id);
        assert(u[i] == ps[i]);
        lemma_profile_index_from_same(ps, u, id, i + 1, k);
    }
}

/// After deleting an id no profile carries it, and every other profile stays.
pub proof fn lemma_delete_removes_id(ps: Seq<EsimProfileView>, id: Seq<char>)
    ensures
        forall|i: int| 0 <= i < without_profile(ps, id).len() ==> (#[trigger] without_profile(ps, id)[i]).id != id,
        forall|i: int| 0 <= i < ps.len() && (#[trigger] ps[i]).id != id ==> without_profile(ps, id).contains(ps[i]),
    decreases ps.len(),
{
    if ps.len() > 0 {
        lemma_delete_removes_id(ps.drop_last(), id);
        let rest = without_profile(ps.drop_last(), id);
        assert forall|i: int| 0 <= i < ps.len() && (#[trigger] ps[i]).id != id implies without_profile(ps, id).contains(ps[i]) by {
            if i < ps.len() - 1 {
                assert(ps.drop_last()[i] == ps[i]);
                let w = choose|j: int| 0 <= j < rest.len() && rest[j] == ps[i];
                if ps.last().id != id {
                    assert(rest.push(ps.last())[w] == ps[i]);
                }
            } else {
                assert(rest.push(ps.last())[rest.len() as int] == ps[i]);
            }
        }
    }
}

/// Newer (or equally new) messages come first.
pub open spec fn is_newest_first(ms: Seq<SmsMessage>) -> bool {
    forall|i: int, j: int|
        0 <= i < j < ms.len() ==> !text_lt(
            (#[trigger] ms[i]).received_at@,
            (#[trigger] ms[j]).received_at@,
        )
}

pub proof fn lemma_text_lt_asym(a: Seq<char>, b: Seq<char>)
    ensures
        text_lt(a, b) ==> !text_lt(b, a),
    decreases a.len(),
{
    if a.len() > 0 && b.len() > 0 && a[0] == b[0] {
        lemma_text_lt_asym(a.drop_first(), b.drop_first());
    }
}

pub proof fn lemma_text_lt_trans(a: Seq<char>, b: Seq<char>, c: Seq<char>)
    ensures
        text_lt(a, b) && text_lt(b, c) ==> text_lt(a, c),
    decreases a.len(),
{
    if a.len() > 0 && b.len() > 0 && c.len() > 0 && a[0] == b[0] && b[0] == c[0] {
        lemma_text_lt_trans(a.drop_first(), b.drop_first(), c.drop_first());
    }
}

pub proof fn lemma_text_lt_total(a: Seq<char>, b: Seq<char>)
    ensures
        !text_lt(a, b) && !text_lt(b, a) ==> a == b,
    decreases a.len(),
{
    if a.len() > 0 && b.len() > 0 && a[0] == b[0] {
        lemma_text_lt_total(a.drop_first(), b.drop_first());
        if a.drop_first() == b.drop_first() {
            assert(a =~= seq![a[0]] + a.drop_first());
            assert(b =~= seq![b[0]] + b.drop_first());
        }
    } else if a.len() == 0 && b.len() == 0 {
        assert(a =~= b);
    }
}

pub proof fn lemma_join_pos_bounds(ms: Seq<SmsMessage>, m: SmsMessage, i: int)
    requires
        0 <= i <= ms.len(),
    ensures
        forall|j: int| i <= j < join_pos_from(ms, m, i) ==> !text_lt(
            (#[trigger] ms[j]).received_at@,
            m.received_at@,
        ),
        join_pos_from(ms, m, i) < ms.len() ==> text_lt(
            ms[join_pos_from(ms, m, i)].received_at@,
            m.received_at@,
        ),
    decreases ms.len() - i,
{
    lemma_join_pos_from(ms, m, i);
    if i < ms.len() && !text_lt(ms[i].received_at@, m.received_at@) {
        lemma_join_pos_bounds(ms, m, i + 1);
    }
}

/// The start-up order of the message list is newest first.
pub proof fn lemma_newest_first_is_ordered(ms: Seq<SmsMessage>)
    ensures
        is_newest_first(newest_first(ms)),
    decreases ms.len(),
{
    if ms.len() > 0 {
        let s = newest_first(ms.drop_last());
        let m = ms.last();
        lemma_newest_first_is_ordered(ms.drop_last());
        lemma_join_pos_from(s, m, 0);
        lemma_join_pos_bounds(s, m, 0);
        let k = join_pos_from(s, m, 0);
        let r = s.insert(k, m);
        assert forall|i: int, j: int| 0 <= i < j < r.len() implies !text_lt(
            (#[trigger] r[i]).received_at@,
            (#[trigger] r[j]).received_at@,
        ) by {
            if i < k && j < k {
                assert(r[i] == s[i] && r[j] == s[j]);
            } else if i < k && j == k {
                assert(r[i] == s[i] && r[j] == m);
            } else if i < k {
                assert(r[i] == s[i] && r[j] == s[j - 1]);
            } else if i == k {
                // m before s[j-1], which is not newer than s[k], which is older than m.
                let x = s[j - 1];
                assert(r[i] == m && r[j] == x);
                let a = m.received_at@;
                let b = s[k].received_at@;
                let c = x.received_at@;
                if j - 1 > k {
                    assert(!text_lt(b, c));
                    lemma_text_lt_total(b, c);
                    lemma_text_lt_trans(c, b, a);
                }
                lemma_text_lt_asym(c, a);
            } else {
                assert(r[i] == s[i - 1] && r[j] == s[j - 1]);
            }
        }
    }
}

} // verus!
