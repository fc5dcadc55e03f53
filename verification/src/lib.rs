//! Commands and responses of an SD card driven over SPI.
//!
//! `command` holds the six-byte command frames, `response` decodes what the
//! card answers on MISO, `init` and `multiblock` hold the decisions of the
//! power-up sequence and of a multi-block read as step functions.
pub mod command;
pub mod response;
pub mod init;
pub mod multiblock;
