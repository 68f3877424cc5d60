//! Simulated hardware: block disk, keyboard and mouse, network card and VGA text screen.
use vstd::prelude::*;
use crate::drivers::vga::{VgaWriter, init_vga};
use crate::drivers::input::{InputState, init_input, KeyEvent};
use crate::drivers::disk::{DiskDevice, init_disk, DISK_SIZE};
use crate::drivers::network::{NetworkCard, init_network};

pub mod disk;
pub mod input;
pub mod network;
pub mod vga;

verus! {

/// The machine's devices: console, keyboard and mouse, disk and network card.
pub struct Devices {
    pub vga: Option<VgaWriter>,
    pub input: InputState,
    pub disk: DiskDevice,
    pub network: NetworkCard,
}

impl Devices {
    /// Each device is in a valid state.
    pub open spec fn wf(&self) -> bool {
        &&& (self.vga matches Some(w) ==> w.wf())
        &&& self.input.keyboard.wf()
        &&& self.disk.wf()
    }
}

/// Brings up every device: a blank console, empty keyboard queue, zeroed disk and idle card.
pub fn init_drivers() -> (d: Devices)
    ensures
        d.wf(),
        d.vga matches Some(w) && w.color_code.0 == 15 && w.cursor == (0usize, 0usize),
        d.input.keyboard.view() == Seq::<KeyEvent>::empty(),
        d.input.mouse == (0i32, 0i32, false),
        d.disk.view() == Seq::new(DISK_SIZE as nat, |i: int| 0u8),
        d.network.rx@.len() == 0,
        d.network.tx@.len() == 0,
{
    let vga = init_vga();
    let input = init_input();
    let disk = init_disk();
    let network = init_network();
    Devices { vga: Some(vga), input, disk, network }
}

} // verus!
