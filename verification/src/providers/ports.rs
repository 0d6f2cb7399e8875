//! Serial ports as the port enumeration reports them, held as plain values.

use vstd::prelude::*;

verus! {

/// The transport behind a serial port.
#[derive(Debug, Clone)]
pub enum SerialPortKind {
    /// A USB serial function with its descriptor strings.
    Usb {
        vid: u16,
        pid: u16,
        serial_number: Option<String>,
        manufacturer: Option<String>,
        product: Option<String>,
    },
    /// A port whose transport the system does not report.
    Unknown,
    /// A PCI or Bluetooth port.
    Other,
}

/// One serial port: its name (`COM3`, `/dev/ttyUSB0`) and transport.
#[derive(Debug, Clone)]
pub struct SerialPortSummary {
    pub port_name: String,
    pub kind: SerialPortKind,
}

} // verus!
