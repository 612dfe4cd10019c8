//! Driver for the register protocol spoken between a flight controller and
//! its I/O coprocessor over a dedicated serial link.

pub mod crc;
pub mod driver;
pub mod error;
pub mod interface;
pub mod protocol;
pub mod registers;

pub use driver::IoMcuDriver;
pub use error::Error;
pub use interface::packet::RegisterValue;
