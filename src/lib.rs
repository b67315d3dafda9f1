//! Simulation of I2C and SPI buses for exercising device drivers.
use vstd::prelude::*;

pub mod port;
pub mod register;
pub mod device;
pub mod bus;
pub mod master;
pub mod spi_wire;
pub mod spi_slave;
pub mod spi_master;

pub use bus::I2CBus;
pub use device::{BusError, I2CSlave, LineCondition, SlaveState};
pub use master::Master;
pub use port::{byte_to_bits, Port};
pub use register::{Populate, Register};
pub use spi_master::{Connected, Disconnected, Instr, MasterAction, MasterCore};
pub use spi_slave::{SlaveCore, SpiSlaveState};
pub use spi_wire::{Clock, LiveWire, SpiMedium};

verus! {

} // verus!
