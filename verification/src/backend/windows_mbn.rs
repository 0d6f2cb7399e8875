//! The native Windows Mobile Broadband (MBN) SMS backend: what an MBN
//! interface is shown as, and the session state its readings give. The COM
//! calls and the event sink belong to the application.

use vstd::prelude::*;

use crate::model::{BackendKind, CapabilitySet, CellularSnapshot, DeviceInfo};
use crate::providers::windows::SMS_CAPS_PDU_RECEIVE;
use crate::sms::inbox::opt_view;
use crate::text::{append_str, chars_of, str_to_string, string_of, strip_prefix, trim, trim_ws};

verus! {

/// What the MBN backend is planned to offer: data, SMS receive, signal and operator.
pub fn planned_capabilities() -> (c: CapabilitySet)
    ensures
        c == (CapabilitySet {
            data: true,
            sms_receive: true,
            sms_send: false,
            esim: false,
            signal: true,
            operator: true,
        }),
{
    CapabilitySet { data: true, sms_receive: true, sms_send: false, esim: false, signal: true, operator: true }
}

pub fn kind() -> (k: BackendKind)
    ensures
        k == BackendKind::WindowsMbn,
{
    BackendKind::WindowsMbn
}

/// The device entry for an MBN interface: named by its model, else by its
/// manufacturer, else generically; it receives SMS only when the interface
/// advertises PDU receive.
pub open spec fn mbn_info_spec(
    interface_id: Option<Seq<char>>,
    manufacturer: Seq<char>,
    model: Seq<char>,
    sms_caps: u32,
    d: DeviceInfo,
) -> bool {
    &&& d.id@ == "mbn:"@ + match interface_id {
        Some(i) => i,
        None => "unknown"@,
    }
    &&& d.name@ == (if model.len() > 0 {
        model
    } else if manufacturer.len() > 0 {
        manufacturer + " Mobile Broadband"@
    } else {
        "Windows Mobile Broadband"@
    })
    &&& d.backend == BackendKind::WindowsMbn
    &&& d.port is None
    &&& opt_view(d.manufacturer) == (if manufacturer.len() > 0 {
        Some(manufacturer)
    } else {
        None
    })
    &&& opt_view(d.product) == (if model.len() > 0 {
        Some(model)
    } else {
        None
    })
    &&& d.capabilities == CapabilitySet {
        data: true,
        sms_receive: sms_caps & SMS_CAPS_PDU_RECEIVE != 0,
        sms_send: false,
        esim: false,
        signal: true,
        operator: true,
    }
}

pub fn mbn_device_info(
    interface_id: Option<String>,
    manufacturer: String,
    model: String,
    sms_caps: u32,
) -> (d: DeviceInfo)
    ensures
        mbn_info_spec(opt_view(interface_id), manufacturer@, model@, sms_caps, d),
{
    let mut id = chars_of("mbn:");
    match &interface_id {
        Some(i) => append_str(&mut id, i.as_str()),
        None => append_str(&mut id, "unknown"),
    }
    let man = chars_of(manufacturer.as_str());
    let mdl = chars_of(model.as_str());
    let name = if mdl.len() > 0 {
        model.clone()
    } else if man.len() > 0 {
        let mut n = man.clone();
        append_str(&mut n, " Mobile Broadband");
        string_of(&n)
    } else {
        str_to_string("Windows Mobile Broadband")
    };
    DeviceInfo {
        id: string_of(&id),
        name,
        backend: BackendKind::WindowsMbn,
        port: None,
        manufacturer: if man.len() > 0 {
            Some(manufacturer)
        } else {
            None
        },
        product: if mdl.len() > 0 {
            Some(model)
        } else {
            None
        },
        capabilities: CapabilitySet {
            data: true,
            sms_receive: sms_caps & SMS_CAPS_PDU_RECEIVE != 0,
            sms_send: false,
            esim: false,
            signal: true,
            operator: true,
        },
    }
}

/// The interface id a listener is started for: the device id without its
/// `mbn:` prefix; a blank id is refused.
pub open spec fn interface_id_of(device_id: Seq<char>) -> Result<Seq<char>, Seq<char>> {
    let id = match strip_prefix(device_id, "mbn:"@) {
        Some(rest) => rest,
        None => device_id,
    };
    if trim(id).len() == 0 {
        Err("缺少 Windows MBN interface id"@)
    } else {
        Ok(id)
    }
}

pub fn mbn_interface_id(device_id: &str) -> (r: Result<String, String>)
    ensures
        match r {
            Ok(i) => interface_id_of(device_id@) == Ok::<Seq<char>, Seq<char>>(i@),
            Err(e) => interface_id_of(device_id@) == Err::<Seq<char>, Seq<char>>(e@),
        },
{
    let v = chars_of(device_id);
    let id = match crate::text::strip_prefix_str(&v, "mbn:") {
        Some(rest) => rest,
        None => v,
    };
    let t = trim_ws(&id);
    if t.len() == 0 {
        return Err(str_to_string("缺少 Windows MBN interface id"));
    }
    Ok(string_of(&id))
}

/// The session state when a listener starts on an MBN interface.
pub open spec fn mbn_start_spec(s: CellularSnapshot) -> bool {
    &&& s.backend == BackendKind::WindowsMbn
    &&& s.device_name@ == "Windows Mobile Broadband"@
    &&& s.operator_name@ == "正在读取运营商"@
    &&& s.network_type@ == "Mobile Broadband"@
    &&& s.signal_percent == 0
    &&& s.rssi_dbm is None
    &&& s.connected
    &&& s.sms_ready
    &&& !s.esim_ready
    &&& s.last_error is None
}

pub fn mbn_session_snapshot() -> (s: CellularSnapshot)
    ensures
        mbn_start_spec(s),
{
    CellularSnapshot {
        backend: BackendKind::WindowsMbn,
        device_name: str_to_string("Windows Mobile Broadband"),
        operator_name: str_to_string("正在读取运营商"),
        network_type: str_to_string("Mobile Broadband"),
        signal_percent: 0,
        rssi_dbm: None,
        connected: true,
        sms_ready: true,
        esim_ready: false,
        last_error: None,
    }
}

/// The session state after reading an MBN interface: the provider name where
/// it is not blank (else a generic name), the signal capped at 100 (0 where
/// unread), the device name kept where there is one.
pub open spec fn mbn_update_spec(
    current: CellularSnapshot,
    provider: Option<Seq<char>>,
    signal: Option<u32>,
    connected: bool,
    s: CellularSnapshot,
) -> bool {
    &&& s.backend == BackendKind::WindowsMbn
    &&& s.device_name@ == (if current.device_name@.len() == 0 {
        "Windows Mobile Broadband"@
    } else {
        current.device_name@
    })
    &&& s.operator_name@ == match provider {
        Some(p) => if trim(p).len() > 0 {
            p
        } else {
            "蜂窝网络"@
        },
        None => "蜂窝网络"@,
    }
    &&& s.network_type@ == "Mobile Broadband"@
    &&& s.signal_percent == match signal {
        Some(v) => if v > 100 {
            100
        } else {
            v as u8
        },
        None => 0u8,
    }
    &&& s.rssi_dbm is None
    &&& s.connected == connected
    &&& s.sms_ready
    &&& !s.esim_ready
    &&& s.last_error is None
}

pub fn mbn_snapshot_update(
    current: CellularSnapshot,
    provider: Option<String>,
    signal: Option<u32>,
    connected: bool,
) -> (s: CellularSnapshot)
    ensures
        mbn_update_spec(current, opt_view(provider), signal, connected, s),
{
    let operator_name = match provider {
        Some(p) => {
            let v = chars_of(p.as_str());
            let t = trim_ws(&v);
            if t.len() > 0 {
                p
            } else {
                str_to_string("蜂窝网络")
            }
        },
        None => str_to_string("蜂窝网络"),
    };
    let signal_percent: u8 = match signal {
        Some(v) => if v > 100 {
            100
        } else {
            v as u8
        },
        None => 0,
    };
    let dn = chars_of(current.device_name.as_str());
    let device_name = if dn.len() == 0 {
        str_to_string("Windows Mobile Broadband")
    } else {
        current.device_name
    };
    CellularSnapshot {
        backend: BackendKind::WindowsMbn,
        device_name,
        operator_name,
        network_type: str_to_string("Mobile Broadband"),
        signal_percent,
        rssi_dbm: None,
        connected,
        sms_ready: true,
        esim_ready: false,
        last_error: None,
    }
}

} // verus!
