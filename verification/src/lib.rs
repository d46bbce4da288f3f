//! Discovery of the exported components of an Android application and
//! synthesis of the `adb` command line that launches each of them.

pub mod llm;
pub mod manifest;
pub mod resolve;
pub mod text;
pub mod utils;
