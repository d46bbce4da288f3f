pub mod adb;
pub mod device;
pub mod source;
