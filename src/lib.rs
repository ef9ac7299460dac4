//! Decoder for the binary key-value metadata files that describe apps and
//! packages: a recursive tree of typed values, framed by fixed-layout records.

pub mod bytes;
pub mod encoding;
pub mod error;
pub mod records;
pub mod text;
pub mod tree;
pub mod value;

pub use error::VdfrError;
pub use records::{App, AppInfo, Package, PackageInfo};
pub use text::{read_string, read_string_table};
pub use tree::{read_kv, MAX_DEPTH};
pub use value::{find_keys, KeyValues, Value};
