//! Block-device identifiers with their kernel encodings, and the pure
//! decision logic of a harness that provisions loop-backed test devices.
pub mod decimal;
pub mod device;
pub mod loopbacked;
