//! Windows-native capabilities: activation codes for the `lpa:` handler and
//! the description of a Mobile Broadband (MBN) interface from the values the
//! MBN COM API reports.

use vstd::prelude::*;

use crate::model::{CellularDevice, DeviceCapabilities, RuntimeCapabilities};
use crate::text::{
    append_chars, append_str, chars_of, has_prefix, hex_upper, push_hex_upper, str_to_string,
    string_of, strip_prefix, strip_prefix_str, trim, trim_ws, starts_with_str,
};

verus! {

/// The `MBN_SMS_CAPS_PDU_RECEIVE` bit of an MBN interface's `smsCaps`.
pub const SMS_CAPS_PDU_RECEIVE: u32 = 1;

/// The activation code handed to the `lpa:` handler: the trimmed text without
/// an `LPA:`/`lpa:` prefix, or a bare `1$` code as it is.
pub open spec fn normalized_activation_code(code: Seq<char>) -> Result<Seq<char>, Seq<char>> {
    let t = trim(code);
    if t.len() == 0 {
        Err("activation code is empty"@)
    } else if has_prefix(t, "LPA:"@) {
        Ok(strip_prefix(t, "LPA:"@).unwrap())
    } else if has_prefix(t, "lpa:"@) {
        Ok(strip_prefix(t, "lpa:"@).unwrap())
    } else if has_prefix(t, "1$"@) {
        Ok(t)
    } else {
        Err("expected an LPA: URI or 1$ activation code"@)
    }
}

pub fn normalize_activation_code(code: &str) -> (r: Result<String, String>)
    ensures
        r matches Ok(s) ==> normalized_activation_code(code@) == Ok::<Seq<char>, Seq<char>>(s@),
        r matches Err(e) ==> normalized_activation_code(code@) == Err::<Seq<char>, Seq<char>>(
            e@,
        ),
{
    let c = chars_of(code);
    let t = trim_ws(&c);
    if t.len() == 0 {
        return Err(str_to_string("activation code is empty"));
    }
    if let Some(rest) = strip_prefix_str(&t, "LPA:") {
        return Ok(string_of(&rest));
    }
    if let Some(rest) = strip_prefix_str(&t, "lpa:") {
        return Ok(string_of(&rest));
    }
    if starts_with_str(&t, "1$") {
        return Ok(string_of(&t));
    }
    Err(str_to_string("expected an LPA: URI or 1$ activation code"))
}

/// MBN signal strength 0..=31 in percent, `(raw * 100 + 15) / 31`; other values are unknown.
pub open spec fn signal_percent_of(raw: u32) -> Option<u8> {
    if raw <= 31 {
        Some(((raw * 100 + 15) / 31) as u8)
    } else {
        None
    }
}

pub fn signal_percent(raw: u32) -> (r: Option<u8>)
    ensures
        r == signal_percent_of(raw),
{
    if raw <= 31 {
        Some(((raw * 100 + 15) / 31) as u8)
    } else {
        None
    }
}

/// Registered (home, roaming, partner) is connected; deregistered or
/// searching is available; anything else is unavailable.
pub open spec fn registration_status_of(raw: i32) -> Seq<char> {
    if raw == 3 || raw == 4 || raw == 5 {
        "connected"@
    } else if raw == 1 || raw == 2 {
        "available"@
    } else {
        "unavailable"@
    }
}

pub fn registration_status(raw: i32) -> (r: &'static str)
    ensures
        r@ == registration_status_of(raw),
{
    if raw == 3 || raw == 4 || raw == 5 {
        "connected"
    } else if raw == 1 || raw == 2 {
        "available"
    } else {
        "unavailable"
    }
}

/// The label of the fastest data class in an MBN data-class mask, the mask in
/// upper-case hex when no known bit is set, or `None` for an empty mask.
pub open spec fn data_class_label_of(mask: u32) -> Option<Seq<char>> {
    if mask & 0x20 != 0 {
        Some("LTE"@)
    } else if mask & 0x10 != 0 {
        Some("HSUPA"@)
    } else if mask & 0x08 != 0 {
        Some("HSDPA"@)
    } else if mask & 0x04 != 0 {
        Some("UMTS"@)
    } else if mask & 0x02 != 0 {
        Some("EDGE"@)
    } else if mask & 0x01 != 0 {
        Some("GPRS"@)
    } else if mask != 0 {
        Some("0x"@ + hex_upper(mask as nat))
    } else {
        None
    }
}

pub fn data_class_label(mask: u32) -> (r: Option<String>)
    ensures
        r matches Some(s) ==> data_class_label_of(mask) == Some(s@),
        r is None ==> data_class_label_of(mask) is None,
{
    if mask & 0x20 != 0 {
        Some(str_to_string("LTE"))
    } else if mask & 0x10 != 0 {
        Some(str_to_string("HSUPA"))
    } else if mask & 0x08 != 0 {
        Some(str_to_string("HSDPA"))
    } else if mask & 0x04 != 0 {
        Some(str_to_string("UMTS"))
    } else if mask & 0x02 != 0 {
        Some(str_to_string("EDGE"))
    } else if mask & 0x01 != 0 {
        Some(str_to_string("GPRS"))
    } else if mask != 0 {
        let mut v: Vec<char> = Vec::new();
        append_str(&mut v, "0x");
        push_hex_upper(&mut v, mask as u64);
        Some(string_of(&v))
    } else {
        None
    }
}

/// A COM string field: trimmed, and absent when empty.
pub open spec fn text_field(value: Seq<char>) -> Option<Seq<char>> {
    if trim(value).len() == 0 {
        None
    } else {
        Some(trim(value))
    }
}

pub fn bstr_text(value: &str) -> (r: Option<String>)
    ensures
        r matches Some(s) ==> text_field(value@) == Some(s@),
        r is None ==> text_field(value@) is None,
{
    let v = chars_of(value);
    let t = trim_ws(&v);
    if t.len() == 0 {
        None
    } else {
        Some(string_of(&t))
    }
}

pub open spec fn opt_text(o: Option<String>) -> Option<Seq<char>> {
    match o {
        Some(s) => Some(s@),
        None => None,
    }
}

/// `manufacturer model`, either one alone, or the generic name when both are missing.
pub open spec fn device_label(
    manufacturer: Option<Seq<char>>,
    model: Option<Seq<char>>,
    fallback: Seq<char>,
) -> Seq<char> {
    match (manufacturer, model) {
        (Some(a), Some(b)) => a + " "@ + b,
        (Some(a), None) => a,
        (None, Some(b)) => b,
        (None, None) => fallback,
    }
}

pub fn device_label_text(
    manufacturer: &Option<String>,
    model: &Option<String>,
    fallback: &str,
) -> (r: String)
    ensures
        r@ == device_label(opt_text(*manufacturer), opt_text(*model), fallback@),
{
    match (manufacturer, model) {
        (Some(a), Some(b)) => {
            let mut v = chars_of(a.as_str());
            append_str(&mut v, " ");
            append_str(&mut v, b.as_str());
            string_of(&v)
        },
        (Some(a), None) => a.clone(),
        (None, Some(b)) => b.clone(),
        (None, None) => str_to_string(fallback),
    }
}

/// What the MBN API reported about one interface, as plain values.
#[derive(Debug, Clone)]
pub struct MbnInterfaceReport {
    /// `IMbnInterface::InterfaceID`, where it could be read.
    pub interface_id: Option<String>,
    /// `MBN_INTERFACE_CAPS::manufacturer`.
    pub manufacturer: String,
    /// `MBN_INTERFACE_CAPS::model`.
    pub model: String,
    /// `MBN_INTERFACE_CAPS::smsCaps`.
    pub sms_caps: u32,
    /// `IMbnRegistration::GetProviderName`, where registration is available.
    pub provider_name: Option<String>,
    /// `IMbnRegistration::GetCurrentDataClass`.
    pub data_class: Option<u32>,
    /// `IMbnSignal::GetSignalStrength`.
    pub signal_strength: Option<u32>,
    /// `IMbnRegistration::GetRegisterState`.
    pub register_state: Option<i32>,
    /// `IMbnInterface::GetReadyState`, read when the registration state is missing.
    pub ready_state: Option<i32>,
}

/// The device status: the registration state where known, else available only
/// when the interface reports ready state 1.
pub open spec fn mbn_status(register_state: Option<i32>, ready_state: Option<i32>) -> Seq<char> {
    match register_state {
        Some(s) => registration_status_of(s),
        None => if ready_state == Some(1i32) {
            "available"@
        } else {
            "unavailable"@
        },
    }
}

/// The device list entry for an MBN interface whose id could be read (an id
/// that is blank once trimmed stands as `unknown-mbn-interface`). SMS receive
/// follows the PDU receive capability bit; sending, native eSIM and the eUICC
/// bridge are never claimed from an MBN interface alone.
pub open spec fn mbn_device_spec(r: MbnInterfaceReport, d: CellularDevice) -> bool {
    let manufacturer = text_field(r.manufacturer@);
    let model = text_field(r.model@);
    let id = match r.interface_id {
        Some(raw) => match text_field(raw@) {
            Some(t) => t,
            None => "unknown-mbn-interface"@,
        },
        None => Seq::empty(),
    };
    &&& r.interface_id is Some
    &&& d.id@ == "mbn:"@ + id
    &&& d.label@ == device_label(manufacturer, model, "Windows Mobile Broadband"@)
    &&& d.kind@ == "windows-mbn"@
    &&& opt_text(d.model) == model
    &&& opt_text(d.operator) == match r.provider_name {
        Some(p) => text_field(p@),
        None => None,
    }
    &&& opt_text(d.network_class) == match r.data_class {
        Some(m) => data_class_label_of(m),
        None => None,
    }
    &&& d.signal == match r.signal_strength {
        Some(s) => signal_percent_of(s),
        None => None,
    }
    &&& d.status@ == mbn_status(r.register_state, r.ready_state)
    &&& d.capabilities == DeviceCapabilities {
        sms_receive: r.sms_caps & SMS_CAPS_PDU_RECEIVE != 0,
        sms_send: false,
        native_esim: false,
        euicc_bridge: false,
    }
}

/// The device for an MBN interface; none where its id could not be read.
pub fn describe_interface(report: &MbnInterfaceReport) -> (r: Option<CellularDevice>)
    ensures
        match r {
            Some(d) => mbn_device_spec(*report, d),
            None => report.interface_id is None,
        },
{
    let id_text = match &report.interface_id {
        Some(raw) => match bstr_text(raw.as_str()) {
            Some(t) => t,
            None => str_to_string("unknown-mbn-interface"),
        },
        None => return None,
    };
    let manufacturer = bstr_text(report.manufacturer.as_str());
    let model = bstr_text(report.model.as_str());
    let label = device_label_text(&manufacturer, &model, "Windows Mobile Broadband");
    let operator = match &report.provider_name {
        Some(p) => bstr_text(p.as_str()),
        None => None,
    };
    let network_class = match report.data_class {
        Some(m) => data_class_label(m),
        None => None,
    };
    let signal = match report.signal_strength {
        Some(s) => signal_percent(s),
        None => None,
    };
    let status = match report.register_state {
        Some(s) => str_to_string(registration_status(s)),
        None => if report.ready_state == Some(1i32) {
            str_to_string("available")
        } else {
            str_to_string("unavailable")
        },
    };
    let mut id = chars_of("mbn:");
    let idc = chars_of(id_text.as_str());
    append_chars(&mut id, &idc);
    Some(CellularDevice {
        id: string_of(&id),
        label,
        kind: str_to_string("windows-mbn"),
        model,
        operator,
        signal,
        network_class,
        status,
        capabilities: DeviceCapabilities {
            sms_receive: report.sms_caps & SMS_CAPS_PDU_RECEIVE != 0,
            sms_send: false,
            native_esim: false,
            euicc_bridge: false,
        },
    })
}

// ---------------------------------------------------------------------------
// The native LPA handoff and the runtime capabilities.
// ---------------------------------------------------------------------------

/// The `lpa:` URI handed to Windows for an activation code: only on Windows,
/// only where the `lpa:` handler is registered, and only for a code that normalises.
pub open spec fn lpa_launch_uri(on_windows: bool, handler_available: bool, code: Seq<char>) -> Result<
    Seq<char>,
    Seq<char>,
> {
    if !on_windows {
        Err("Windows LPA is only available on Windows"@)
    } else if !handler_available {
        Err("Windows does not expose the lpa: URI handler; Windows 11 24H2+ is required for this path"@)
    } else {
        match normalized_activation_code(code) {
            Ok(n) => Ok("lpa:"@ + n),
            Err(e) => Err(e),
        }
    }
}

pub fn lpa_handoff(on_windows: bool, handler_available: bool, code: &str) -> (r: Result<String, String>)
    ensures
        match r {
            Ok(u) => lpa_launch_uri(on_windows, handler_available, code@) == Ok::<
                Seq<char>,
                Seq<char>,
            >(u@),
            Err(e) => lpa_launch_uri(on_windows, handler_available, code@) == Err::<
                Seq<char>,
                Seq<char>,
            >(e@),
        },
{
    if !on_windows {
        return Err(str_to_string("Windows LPA is only available on Windows"));
    }
    if !handler_available {
        return Err(
            str_to_string(
                "Windows does not expose the lpa: URI handler; Windows 11 24H2+ is required for this path",
            ),
        );
    }
    let normalized = match normalize_activation_code(code) {
        Ok(n) => n,
        Err(e) => return Err(e),
    };
    let mut uri = chars_of("lpa:");
    append_str(&mut uri, normalized.as_str());
    Ok(string_of(&uri))
}

/// What the running system offers: the native LPA where its handler is
/// registered, lpac where it was found, and never the eUICC bridge before a
/// real eUICC and APDU transport are proven.
pub fn runtime_capabilities(
    native_lpa_available: bool,
    lpac_found: bool,
    on_windows: bool,
    os: &str,
) -> (r: RuntimeCapabilities)
    ensures
        r.native_lpa_available == native_lpa_available,
        !r.euicc_bridge_available,
        r.lpac_found == lpac_found,
        r.platform@ == (if on_windows {
            "windows"@
        } else {
            os@
        }),
{
    RuntimeCapabilities {
        native_lpa_available,
        euicc_bridge_available: false,
        lpac_found,
        platform: if on_windows {
            str_to_string("windows")
        } else {
            str_to_string(os)
        },
    }
}

/// The device list for the MBN interfaces that were read: in order, one entry
/// for each interface whose id could be read; the others are left out.
pub open spec fn mbn_listing(rs: Seq<MbnInterfaceReport>, ds: Seq<CellularDevice>) -> bool
    decreases rs.len(),
{
    if rs.len() == 0 {
        ds.len() == 0
    } else if rs.last().interface_id is None {
        mbn_listing(rs.drop_last(), ds)
    } else {
        &&& ds.len() > 0
        &&& mbn_device_spec(rs.last(), ds.last())
        &&& mbn_listing(rs.drop_last(), ds.drop_last())
    }
}

pub fn enumerate_devices(reports: &[MbnInterfaceReport]) -> (r: Vec<CellularDevice>)
    ensures
        mbn_listing(reports@, r@),
{
    let mut out: Vec<CellularDevice> = Vec::new();
    let mut i: usize = 0;
    while i < reports.len()
        invariant
            0 <= i <= reports@.len(),
            mbn_listing(reports@.take(i as int), out@),
        decreases reports@.len() - i,
    {
        let ghost before = out@;
        assert(reports@.take(i + 1).drop_last() =~= reports@.take(i as int));
        assert(reports@.take(i + 1).last() == reports@[i as int]);
        match describe_interface(&reports[i]) {
            Some(d) => {
                out.push(d);
                assert(out@.drop_last() =~= before);
            },
            None => {},
        }
        i = i + 1;
    }
    assert(reports@.take(reports@.len() as int) =~= reports@);
    out
}

} // verus!
