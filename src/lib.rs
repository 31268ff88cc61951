pub mod decode;
pub mod hostfns;
pub mod script;
pub mod text;
pub mod types;
pub mod wildcard;

pub use decode::decode;
pub use types::{Error, ProxyEntry, ProxyType};
