//! The device that the browser preview shows when no real provider runs.

use vstd::prelude::*;

use crate::model::{CellularDevice, DeviceCapabilities};
use crate::text::str_to_string;

verus! {

pub open spec fn is_demo_device(d: CellularDevice) -> bool {
    &&& d.id@ == "demo-native"@
    &&& d.label@ == "Windows Mobile Broadband"@
    &&& d.kind@ == "demo"@
    &&& d.model matches Some(m) && m@ == "Demo 5G Modem"@
    &&& d.operator matches Some(o) && o@ == "CellularHub Demo"@
    &&& d.signal == Some(82u8)
    &&& d.network_class matches Some(n) && n@ == "5G"@
    &&& d.status@ == "connected"@
    &&& d.capabilities == DeviceCapabilities {
        sms_receive: true,
        sms_send: false,
        native_esim: true,
        euicc_bridge: false,
    }
}

pub fn demo_device() -> (d: CellularDevice)
    ensures
        is_demo_device(d),
{
    CellularDevice {
        id: str_to_string("demo-native"),
        label: str_to_string("Windows Mobile Broadband"),
        kind: str_to_string("demo"),
        model: Some(str_to_string("Demo 5G Modem")),
        operator: Some(str_to_string("CellularHub Demo")),
        signal: Some(82),
        network_class: Some(str_to_string("5G")),
        status: str_to_string("connected"),
        capabilities: DeviceCapabilities {
            sms_receive: true,
            sms_send: false,
            native_esim: true,
            euicc_bridge: false,
        },
    }
}

} // verus!
