//! Machine control: the port writes that power the machine off or reset it.
//! Neither request returns when the hardware reacts; if it does not, the
//! caller halts the CPU.
use vstd::prelude::*;
use crate::device::pit::PortWrite;

verus! {

/// ACPI PM1a control registers of the common QEMU machine types, tried in
/// order: q35 and modern PIIX, older PIIX4 and Bochs, `virt` and `microvm`.
/// Writing to a port no device listens on has no effect, so trying all is harmless.
pub const ACPI_SHUTDOWN_PORTS: [u16; 3] = [0x604, 0xb004, 0x4004];
/// The PM1a command for a soft power off: `SLP_EN` (bit 13) with sleep type zero.
pub const ACPI_SLEEP_COMMAND: u16 = 0x2000;
/// Port of the PCI reset control register, the fallback for rebooting.
pub const RESET_CONTROL_PORT: u16 = 0xcf9;
/// Reset control command: request (bit 1) and trigger (bit 2) a hard (bit 3) reset.
pub const RESET_CONTROL_COMMAND: u8 = 0x0e;

/// A 16-bit value to write to an I/O port.
#[derive(Clone, Copy, Debug, PartialEq, Eq, Structural)]
pub struct PortWriteWord {
    pub port: u16,
    pub value: u16,
}

/// The 16-bit port writes that request an ACPI soft power off: the sleep
/// command to each candidate register, in order.
pub fn shutdown() -> (r: Vec<PortWriteWord>)
    ensures
        r@.len() == 3,
        forall|i: int| 0 <= i < 3 ==> (#[trigger] r@[i]).port == ACPI_SHUTDOWN_PORTS@[i] && r@[i].value == ACPI_SLEEP_COMMAND,
{
    let mut r: Vec<PortWriteWord> = Vec::new();
    let mut i: usize = 0;
    while i < 3
        invariant
            i <= 3,
            r@.len() == i,
            forall|j: int| 0 <= j < i ==> (#[trigger] r@[j]).port == ACPI_SHUTDOWN_PORTS@[j] && r@[j].value == ACPI_SLEEP_COMMAND,
        decreases 3 - i,
    {
        r.push(PortWriteWord { port: ACPI_SHUTDOWN_PORTS[i], value: ACPI_SLEEP_COMMAND });
        i = i + 1;
    }
    r
}

/// The port write that resets the machine through the PCI reset control
/// register, used after the keyboard controller reset.
pub fn reboot() -> (r: PortWrite)
    ensures
        r == (PortWrite { port: RESET_CONTROL_PORT, value: RESET_CONTROL_COMMAND }),
{
    PortWrite { port: RESET_CONTROL_PORT, value: RESET_CONTROL_COMMAND }
}

} // verus!
