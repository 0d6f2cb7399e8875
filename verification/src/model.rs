//! The records that the receive pipeline, the stores and the UI snapshot share.

use vstd::prelude::*;

verus! {

/// What a cellular device has been shown to support.
#[derive(Debug, Clone, Copy, PartialEq, Eq)]
pub struct DeviceCapabilities {
    pub sms_receive: bool,
    pub sms_send: bool,
    pub native_esim: bool,
    pub euicc_bridge: bool,
}

/// A cellular device as the device list shows it.
#[derive(Debug)]
pub struct CellularDevice {
    pub id: String,
    pub label: String,
    pub kind: String,
    pub model: Option<String>,
    pub operator: Option<String>,
    pub signal: Option<u8>,
    pub network_class: Option<String>,
    pub status: String,
    pub capabilities: DeviceCapabilities,
}

/// One stored SMS.
#[derive(Debug)]
pub struct SmsMessage {
    pub id: String,
    pub sender: String,
    pub body: String,
    pub received_at: String,
    pub unread: bool,
    pub archived: bool,
    pub category: String,
    pub code: Option<String>,
    /// Storage index of the message on the modem, where the provider reports one.
    pub slot: Option<u32>,
}

/// The text of a stored SMS as the contracts see it.
pub struct SmsView {
    pub id: Seq<char>,
    pub sender: Seq<char>,
    pub body: Seq<char>,
    pub received_at: Seq<char>,
    pub unread: bool,
    pub archived: bool,
    pub category: Seq<char>,
    pub code: Option<Seq<char>>,
    pub slot: Option<u32>,
}

impl View for SmsMessage {
    type V = SmsView;

    open spec fn view(&self) -> SmsView {
        SmsView {
            id: self.id@,
            sender: self.sender@,
            body: self.body@,
            received_at: self.received_at@,
            unread: self.unread,
            archived: self.archived,
            category: self.category@,
            code: match self.code {
                Some(c) => Some(c@),
                None => None,
            },
            slot: self.slot,
        }
    }
}

pub open spec fn sms_views(ms: Seq<SmsMessage>) -> Seq<SmsView> {
    ms.map_values(|m: SmsMessage| m@)
}

/// A free-form label/value pair attached to an eSIM profile.
#[derive(Debug)]
pub struct CustomField {
    pub label: String,
    pub value: String,
}

/// A saved eSIM profile record.
#[derive(Debug)]
pub struct EsimProfile {
    pub id: String,
    pub name: String,
    pub country_code: String,
    pub operator: String,
    pub phone_number: Option<String>,
    pub iccid: Option<String>,
    pub plan: Option<String>,
    /// The keep-alive cost as the IEEE-754 bits of an `f64` (`f64::to_bits`).
    pub keep_alive_cost_bits: Option<u64>,
    pub currency: Option<String>,
    pub billing_cycle: Option<String>,
    pub renewal_date: Option<String>,
    pub expiry_date: Option<String>,
    pub auto_renew: bool,
    pub status: String,
    pub notes: Option<String>,
    pub tags: Vec<String>,
    pub custom_fields: Vec<CustomField>,
    pub created_at: String,
    pub updated_at: String,
}

/// Platform capabilities that do not belong to one device.
#[derive(Debug, Clone)]
pub struct RuntimeCapabilities {
    pub native_lpa_available: bool,
    pub euicc_bridge_available: bool,
    pub lpac_found: bool,
    pub platform: String,
}

/// Everything the UI shows at once.
#[derive(Debug, Clone)]
pub struct AppSnapshot {
    pub devices: Vec<CellularDevice>,
    pub selected_device_id: Option<String>,
    pub active_sms_listener_device_id: Option<String>,
    pub messages: Vec<SmsMessage>,
    pub esim_profiles: Vec<EsimProfile>,
    pub runtime: RuntimeCapabilities,
}

/// The provider behind a receive session.
#[derive(Debug, Clone, Copy, PartialEq, Eq)]
pub enum BackendKind {
    Mock,
    At,
    WindowsMbn,
}

/// The state of the active receive session.
#[derive(Debug)]
pub struct CellularSnapshot {
    pub backend: BackendKind,
    pub device_name: String,
    pub operator_name: String,
    pub network_type: String,
    pub signal_percent: u8,
    pub rssi_dbm: Option<i32>,
    pub connected: bool,
    pub sms_ready: bool,
    pub esim_ready: bool,
    pub last_error: Option<String>,
}

/// The session state before any provider has connected.
pub open spec fn is_default_snapshot(s: CellularSnapshot) -> bool {
    &&& s.backend == BackendKind::Mock
    &&& s.device_name@ == Seq::<char>::empty()
    &&& s.operator_name@ == Seq::<char>::empty()
    &&& s.network_type@ == Seq::<char>::empty()
    &&& s.signal_percent == 0
    &&& s.rssi_dbm is None
    &&& !s.connected
    &&& !s.sms_ready
    &&& !s.esim_ready
    &&& s.last_error is None
}

impl Default for CellularSnapshot {
    fn default() -> (s: Self)
        ensures
            is_default_snapshot(s),
    {
        CellularSnapshot {
            backend: BackendKind::Mock,
            device_name: String::new(),
            operator_name: String::new(),
            network_type: String::new(),
            signal_percent: 0,
            rssi_dbm: None,
            connected: false,
            sms_ready: false,
            esim_ready: false,
            last_error: None,
        }
    }
}

/// What a provider backend can do.
#[derive(Debug, Clone, Copy, PartialEq, Eq)]
pub struct CapabilitySet {
    pub data: bool,
    pub sms_receive: bool,
    pub sms_send: bool,
    pub esim: bool,
    pub signal: bool,
    pub operator: bool,
}

/// A device that a provider backend discovered.
#[derive(Debug, Clone)]
pub struct DeviceInfo {
    pub id: String,
    pub name: String,
    pub backend: BackendKind,
    pub port: Option<String>,
    pub manufacturer: Option<String>,
    pub product: Option<String>,
    pub capabilities: CapabilitySet,
}

/// Per-sender conversation metadata: alias, notes and pin state.
#[derive(Debug)]
pub struct ConversationMeta {
    pub sender: String,
    pub alias: String,
    pub notes: String,
    pub pinned: bool,
    pub updated_at: String,
}

/// A serial port that exposes a real eUICC path.
#[derive(Debug, Clone)]
pub struct EsimCompatCandidate {
    pub port: String,
    pub at_apdu: bool,
    pub at_csim: bool,
    pub vendor_esim: bool,
    pub eid: Option<String>,
    pub lpac_available: bool,
    pub install_ready: bool,
    pub note: String,
}

/// A request to provision a profile through lpac.
#[derive(Debug, Clone)]
pub struct EsimCompatInstallRequest {
    pub activation_code: String,
    pub transport: String,
    pub port: String,
}

/// The result of probing for the experimental eSIM path.
#[derive(Debug, Clone)]
pub struct EsimCompatReport {
    pub windows_lpa_available: bool,
    pub lpac_path: Option<String>,
    pub candidates: Vec<EsimCompatCandidate>,
}

pub fn clone_opt_string(o: &Option<String>) -> (r: Option<String>)
    ensures
        r == *o,
{
    match o {
        Some(s) => Some(s.clone()),
        None => None,
    }
}

impl Clone for SmsMessage {
    fn clone(&self) -> (r: Self)
        ensures
            r == *self,
    {
        SmsMessage {
            id: self.id.clone(),
            sender: self.sender.clone(),
            body: self.body.clone(),
            received_at: self.received_at.clone(),
            unread: self.unread,
            archived: self.archived,
            category: self.category.clone(),
            code: clone_opt_string(&self.code),
            slot: self.slot,
        }
    }
}

impl Clone for CellularSnapshot {
    fn clone(&self) -> (r: Self)
        ensures
            r == *self,
    {
        CellularSnapshot {
            backend: self.backend,
            device_name: self.device_name.clone(),
            operator_name: self.operator_name.clone(),
            network_type: self.network_type.clone(),
            signal_percent: self.signal_percent,
            rssi_dbm: self.rssi_dbm,
            connected: self.connected,
            sms_ready: self.sms_ready,
            esim_ready: self.esim_ready,
            last_error: clone_opt_string(&self.last_error),
        }
    }
}

impl Clone for CellularDevice {
    fn clone(&self) -> (r: Self)
        ensures
            r == *self,
    {
        CellularDevice {
            id: self.id.clone(),
            label: self.label.clone(),
            kind: self.kind.clone(),
            model: clone_opt_string(&self.model),
            operator: clone_opt_string(&self.operator),
            signal: self.signal,
            network_class: clone_opt_string(&self.network_class),
            status: self.status.clone(),
            capabilities: self.capabilities,
        }
    }
}

pub fn clone_strings(v: &Vec<String>) -> (r: Vec<String>)
    ensures
        r@ == v@,
{
    let mut r: Vec<String> = Vec::new();
    let mut i: usize = 0;
    while i < v.len()
        invariant
            0 <= i <= v.len(),
            r@ == v@.take(i as int),
        decreases v.len() - i,
    {
        r.push(v[i].clone());
        assert(r@ =~= v@.take(i + 1));
        i = i + 1;
    }
    assert(v@.take(v.len() as int) =~= v@);
    r
}

impl Clone for CustomField {
    fn clone(&self) -> (r: Self)
        ensures
            r == *self,
    {
        CustomField { label: self.label.clone(), value: self.value.clone() }
    }
}

pub fn clone_fields(v: &Vec<CustomField>) -> (r: Vec<CustomField>)
    ensures
        r@ == v@,
{
    let mut r: Vec<CustomField> = Vec::new();
    let mut i: usize = 0;
    while i < v.len()
        invariant
            0 <= i <= v.len(),
            r@ == v@.take(i as int),
        decreases v.len() - i,
    {
        r.push(v[i].clone());
        assert(r@ =~= v@.take(i + 1));
        i = i + 1;
    }
    assert(v@.take(v.len() as int) =~= v@);
    r
}

/// An eSIM profile as the contracts see it: every text by its characters.
pub struct EsimProfileView {
    pub id: Seq<char>,
    pub name: Seq<char>,
    pub country_code: Seq<char>,
    pub operator: Seq<char>,
    pub phone_number: Option<Seq<char>>,
    pub iccid: Option<Seq<char>>,
    pub plan: Option<Seq<char>>,
    pub keep_alive_cost_bits: Option<u64>,
    pub currency: Option<Seq<char>>,
    pub billing_cycle: Option<Seq<char>>,
    pub renewal_date: Option<Seq<char>>,
    pub expiry_date: Option<Seq<char>>,
    pub auto_renew: bool,
    pub status: Seq<char>,
    pub notes: Option<Seq<char>>,
    pub tags: Seq<Seq<char>>,
    pub custom_fields: Seq<(Seq<char>, Seq<char>)>,
    pub created_at: Seq<char>,
    pub updated_at: Seq<char>,
}

pub open spec fn opt_chars(o: Option<String>) -> Option<Seq<char>> {
    match o {
        Some(s) => Some(s@),
        None => None,
    }
}

pub open spec fn field_views(v: Seq<CustomField>) -> Seq<(Seq<char>, Seq<char>)> {
    v.map_values(|f: CustomField| (f.label@, f.value@))
}

pub open spec fn text_views(v: Seq<String>) -> Seq<Seq<char>> {
    v.map_values(|x: String| x@)
}

impl View for EsimProfile {
    type V = EsimProfileView;

    open spec fn view(&self) -> EsimProfileView {
        EsimProfileView {
            id: self.id@,
            name: self.name@,
            country_code: self.country_code@,
            operator: self.operator@,
            phone_number: opt_chars(self.phone_number),
            iccid: opt_chars(self.iccid),
            plan: opt_chars(self.plan),
            keep_alive_cost_bits: self.keep_alive_cost_bits,
            currency: opt_chars(self.currency),
            billing_cycle: opt_chars(self.billing_cycle),
            renewal_date: opt_chars(self.renewal_date),
            expiry_date: opt_chars(self.expiry_date),
            auto_renew: self.auto_renew,
            status: self.status@,
            notes: opt_chars(self.notes),
            tags: text_views(self.tags@),
            custom_fields: field_views(self.custom_fields@),
            created_at: self.created_at@,
            updated_at: self.updated_at@,
        }
    }
}

pub open spec fn profile_views(v: Seq<EsimProfile>) -> Seq<EsimProfileView> {
    v.map_values(|p: EsimProfile| p@)
}

impl Clone for EsimProfile {
    fn clone(&self) -> (r: Self)
        ensures
            r@ == self@,
    {
        EsimProfile {
            id: self.id.clone(),
            name: self.name.clone(),
            country_code: self.country_code.clone(),
            operator: self.operator.clone(),
            phone_number: clone_opt_string(&self.phone_number),
            iccid: clone_opt_string(&self.iccid),
            plan: clone_opt_string(&self.plan),
            keep_alive_cost_bits: self.keep_alive_cost_bits,
            currency: clone_opt_string(&self.currency),
            billing_cycle: clone_opt_string(&self.billing_cycle),
            renewal_date: clone_opt_string(&self.renewal_date),
            expiry_date: clone_opt_string(&self.expiry_date),
            auto_renew: self.auto_renew,
            status: self.status.clone(),
            notes: clone_opt_string(&self.notes),
            tags: clone_strings(&self.tags),
            custom_fields: clone_fields(&self.custom_fields),
            created_at: self.created_at.clone(),
            updated_at: self.updated_at.clone(),
        }
    }
}

impl Clone for ConversationMeta {
    fn clone(&self) -> (r: Self)
        ensures
            r == *self,
    {
        ConversationMeta {
            sender: self.sender.clone(),
            alias: self.alias.clone(),
            notes: self.notes.clone(),
            pinned: self.pinned,
            updated_at: self.updated_at.clone(),
        }
    }
}

} // verus!
