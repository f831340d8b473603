//! A MessagePack codec with path-tracking diagnostics, and the decisions of
//! an invocation protocol between a guest module and its host.
pub mod bindings;
pub mod context;
pub mod error;
pub mod format;
pub mod invoke;
pub mod laws;
pub mod pack;
pub mod read_decoder;
pub mod sorted_map;
pub mod textual;
pub mod write_encoder;

pub use context::Context;
pub use error::{DecodeError, EncodeError};
pub use format::Format;
pub use invoke::InvokeArgs;
pub use pack::Pack;
pub use read_decoder::ReadDecoder;
pub use sorted_map::SortedMap;
pub use write_encoder::WriteEncoder;
