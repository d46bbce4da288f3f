pub mod component;
pub mod parser;
pub mod permissions;

pub use component::Component;
pub use parser::{is_manifest_file, parse_manifest};
