use vstd::prelude::*;

use crate::processo::Processo;

verus! {

/// The shared devices of the system; `true` means that the device is free.
/// A process asks for the scanner and the modem by a flag, and for a printer or a
/// drive by its number, where 0 means "none".
pub struct ResourceManager {
    pub scanner: bool,
    pub printer: [bool; 2],
    pub modem: bool,
    pub drive: [bool; 2],
}

/// A device number that the manager can look up: 0 (none) or a slot of the array.
pub open spec fn valid_device(n: usize) -> bool {
    n > 0 ==> n < 2
}

/// The devices that `process` asks for are in its range.
pub open spec fn valid_request(process: Processo) -> bool {
    valid_device(process.printer) && valid_device(process.drive)
}

/// `process` asks for at least one device.
pub open spec fn requests_any(process: Processo) -> bool {
    process.scanner || process.modem || process.printer > 0 || process.drive > 0
}

/// The state of the devices: (scanner, printers, modem, drives).
pub type Devices = (bool, Seq<bool>, bool, Seq<bool>);

/// Every device that `process` asks for is free in `d`.
pub open spec fn devices_available(d: Devices, process: Processo) -> bool {
    &&& (process.scanner ==> d.0)
    &&& (process.printer > 0 ==> d.1[process.printer as int])
    &&& (process.modem ==> d.2)
    &&& (process.drive > 0 ==> d.3[process.drive as int])
}

/// Device slot `n` set to `value`, if `n` names one.
pub open spec fn device_slots(slots: Seq<bool>, n: usize, value: bool) -> Seq<bool> {
    if n > 0 {
        slots.update(n as int, value)
    } else {
        slots
    }
}

/// `d` with the devices that `process` asks for set to `value`.
pub open spec fn set_devices(d: Devices, process: Processo, value: bool) -> Devices {
    (
        if process.scanner {
            value
        } else {
            d.0
        },
        device_slots(d.1, process.printer, value),
        if process.modem {
            value
        } else {
            d.2
        },
        device_slots(d.3, process.drive, value),
    )
}

/// Whether the printer and drive that `process` asks for name slots of the
/// manager (see `valid_request`).
pub fn request_in_range(process: &Processo) -> (r: bool)
    ensures
        r == valid_request(*process),
{
    (process.printer == 0 || process.printer < 2) && (process.drive == 0 || process.drive < 2)
}

impl ResourceManager {
    /// The state of all devices.
    pub open spec fn spec_state(self) -> Devices {
        (self.scanner, self.printer@, self.modem, self.drive@)
    }

    /// Whether every device that `process` asks for is free.
    pub fn resources_available(&self, process: &Processo) -> (r: bool)
        requires
            valid_request(*process),
        ensures
            r == devices_available(self.spec_state(), *process),
    {
        let scanner;
        let printer;
        let modem;
        let drive;

        if process.scanner {
            scanner = self.scanner;
        } else {
            scanner = true;
        }

        if process.modem {
            modem = self.modem;
        } else {
            modem = true;
        }

        if process.printer > 0 {
            printer = self.printer[process.printer];
        } else {
            printer = true;
        }
        if process.drive > 0 {
            drive = self.drive[process.drive];
        } else {
            drive = true;
        }

        scanner && printer && modem && drive
    }

    /// Marks the devices that `process` asks for as taken.
    pub fn alloc_resources(&mut self, process: &Processo)
        requires
            valid_request(*process),
        ensures
            final(self).spec_state() == set_devices(old(self).spec_state(), *process, false),
    {
        if process.scanner {
            self.scanner = false;
        }
        if process.modem {
            self.modem = false;
        }
        if process.printer > 0 {
            self.printer[process.printer] = false;
        }
        if process.drive > 0 {
            self.drive[process.drive] = false;
        }
    }

    /// Marks the devices that `process` asks for as free again.
    pub fn dealloc_resources(&mut self, process: &Processo)
        requires
            valid_request(*process),
        ensures
            final(self).spec_state() == set_devices(old(self).spec_state(), *process, true),
    {
        if process.scanner {
            self.scanner = true;
        }
        if process.modem {
            self.modem = true;
        }
        if process.printer > 0 {
            self.printer[process.printer] = true;
        }
        if process.drive > 0 {
            self.drive[process.drive] = true;
        }
    }
}

} // verus!
