//! Typed persistent storage bindings: a byte codec for nested values, storage
//! cells and lazily addressed mappings over a key-value store, and the root
//! record that composes them.

pub mod arrays;
pub mod bytes;
pub mod cell;
pub mod codec;
pub mod compact;
pub mod key;
pub mod layout;
pub mod mapping;
pub mod primitives;
pub mod records;
pub mod scalars;
pub mod sequences;
pub mod state;
pub mod store;
pub mod text;
pub mod variants;

pub use cell::StorageCell;
pub use codec::{decode, encode, Codec, DecodeError};
pub use key::{KeyCollisionError, StorageKey};
pub use layout::Layout;
pub use mapping::LazyMapping;
pub use primitives::{AccountId, Balance};
pub use records::{
    InkPreludeTypes, PrimitiveTypes, SignedIntegers, SubstrateTypes, UnsignedIntegers,
};
pub use state::{MappingTypes, StorageTypes};
pub use store::Store;
pub use variants::{EnumWithValues, EnumWithoutValues, Error};
