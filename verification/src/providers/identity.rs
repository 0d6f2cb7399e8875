//! Stable local identities for cellular hardware.
//!
//! A Windows COM number is not a hardware identity: Windows may assign COM3 to
//! a different device after a reboot. Only a USB transport with VID/PID and a
//! non-empty serial number identifies an AT device across restarts.

use vstd::prelude::*;

use crate::providers::ports::{SerialPortKind, SerialPortSummary};
use crate::text::{
    append_chars, append_str, ascii_lower_chars, chars_eq, chars_of, has_prefix, hex4_lower,
    lower_seq, push_hex4_lower, string_of, strip_prefix, strip_prefix_str, trim, trim_ws,
    starts_with_str,
};

verus! {

/// `usb:<vid>:<pid>:<serial>` with four lower-case hex digits each for VID and
/// PID and the trimmed serial number; none without a serial number.
pub open spec fn usb_key_of(vid: u16, pid: u16, serial: Seq<char>) -> Option<Seq<char>> {
    let s = trim(serial);
    if s.len() == 0 {
        None
    } else {
        Some("usb:"@ + hex4_lower(vid) + ":"@ + hex4_lower(pid) + ":"@ + s)
    }
}

pub fn usb_hardware_key(vid: u16, pid: u16, serial: &str) -> (r: Option<String>)
    ensures
        r matches Some(k) ==> usb_key_of(vid, pid, serial@) == Some(k@),
        r is None ==> usb_key_of(vid, pid, serial@) is None,
{
    let sv = chars_of(serial);
    let s = trim_ws(&sv);
    if s.len() == 0 {
        return None;
    }
    let mut k: Vec<char> = Vec::new();
    append_str(&mut k, "usb:");
    push_hex4_lower(&mut k, vid);
    append_str(&mut k, ":");
    push_hex4_lower(&mut k, pid);
    append_str(&mut k, ":");
    append_chars(&mut k, &s);
    Some(string_of(&k))
}

/// First port at or after `i` whose name equals `name` ignoring ASCII case.
pub open spec fn port_named_from(ports: Seq<SerialPortSummary>, name: Seq<char>, i: int) -> Option<
    int,
>
    decreases ports.len() - i,
{
    if i < 0 || i >= ports.len() {
        None
    } else if lower_seq(ports[i].port_name@) == lower_seq(name) {
        Some(i)
    } else {
        port_named_from(ports, name, i + 1)
    }
}

pub proof fn lemma_port_named_from(ports: Seq<SerialPortSummary>, name: Seq<char>, i: int)
    requires
        0 <= i,
    ensures
        port_named_from(ports, name, i) matches Some(k) ==> i <= k < ports.len(),
    decreases ports.len() - i,
{
    if i < ports.len() && lower_seq(ports[i].port_name@) != lower_seq(name) {
        lemma_port_named_from(ports, name, i + 1);
    }
}

/// The identity of a device: an MBN interface id is stable as it is; an AT
/// device is identified by the USB key of its port, where the port is a USB
/// port with a serial number.
pub open spec fn hardware_key_of(device_id: Seq<char>, ports: Seq<SerialPortSummary>) -> Option<
    Seq<char>,
> {
    if has_prefix(device_id, "mbn:"@) {
        Some(device_id)
    } else {
        match strip_prefix(device_id, "at:"@) {
            None => None,
            Some(name) => match port_named_from(ports, name, 0) {
                None => None,
                Some(k) => match ports[k].kind {
                    SerialPortKind::Usb { vid, pid, serial_number: Some(serial), .. } => usb_key_of(
                        vid,
                        pid,
                        serial@,
                    ),
                    _ => None,
                },
            },
        }
    }
}

pub fn stable_hardware_key(device_id: &str, ports: &[SerialPortSummary]) -> (r: Option<String>)
    ensures
        r matches Some(k) ==> hardware_key_of(device_id@, ports@) == Some(k@),
        r is None ==> hardware_key_of(device_id@, ports@) is None,
{
    let id = chars_of(device_id);
    if starts_with_str(&id, "mbn:") {
        return Some(string_of(&id));
    }
    let name = match strip_prefix_str(&id, "at:") {
        Some(n) => n,
        None => return None,
    };
    let lname = ascii_lower_chars(&name);
    let mut i: usize = 0;
    while i < ports.len()
        invariant
            0 <= i <= ports@.len(),
            lname@ == lower_seq(name@),
            !has_prefix(device_id@, "mbn:"@),
            strip_prefix(device_id@, "at:"@) == Some(name@),
            port_named_from(ports@, name@, 0) == port_named_from(ports@, name@, i as int),
        decreases ports@.len() - i,
    {
        let pn = chars_of(ports[i].port_name.as_str());
        let lp = ascii_lower_chars(&pn);
        if chars_eq(&lp, &lname) {
            return match &ports[i].kind {
                SerialPortKind::Usb { vid, pid, serial_number: Some(serial), .. } => usb_hardware_key(
                    *vid,
                    *pid,
                    serial.as_str(),
                ),
                _ => None,
            };
        }
        i = i + 1;
    }
    None
}

} // verus!
