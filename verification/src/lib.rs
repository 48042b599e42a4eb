//! Self-describing, composable network addresses: a sequence of typed
//! protocol components with a textual and a compact binary form.

pub mod capability;
pub mod code;
pub mod codec;
pub mod error;
pub mod iter;
pub mod laws;
pub mod multiaddr;
pub mod proto;
pub mod registry;
pub mod small;
pub mod text;
pub mod value;
pub mod varint;

pub use crate::code::{Checked, Code};
pub use crate::codec::{Buffer, Codec, Protocol};
pub use crate::error::Error;
pub use crate::multiaddr::{MultiAddr, ProtoIter};
pub use crate::registry::{Registry, RegistryBuilder};
pub use crate::value::ProtoValue;
