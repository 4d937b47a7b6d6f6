//! A current-sweep engine for a laser-diode source and an optical spectrum
//! analyzer, with the measurement text handling and the power-meter protocol
//! it relies on.

pub mod text;
pub mod sweep;
pub mod measure;
pub mod meter;
