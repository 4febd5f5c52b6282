//! Register-level driver for a 9-axis absolute orientation sensor with an
//! onboard fusion processor, reached over a two-wire serial bus.

pub mod registers;
pub mod bus;
pub mod codec;
pub mod device;
