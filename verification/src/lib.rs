//! Reading, editing and writing Named Binary Tag (NBT) documents.
pub mod byte_order;
pub mod canonical;
pub mod compound;
pub mod config;
pub mod deserializer;
pub mod document;
pub mod error;
pub mod into_nbt;
pub mod laws;
pub mod list;
pub mod model;
pub mod mutf8;
pub mod mutref;
pub mod read;
pub mod refs;
pub mod roundtrip;
pub mod serde_laws;
pub mod serializer;
pub mod skip;
pub mod stream;
pub mod string;
pub mod tag;
pub mod tag_probe;
pub mod typed_list;
pub mod value;
pub mod write;

pub use byte_order::{BigEndian, ByteOrder, LittleEndian};
pub use error::Error;
pub use mutref::MutValue;
pub use refs::{
    ImmutableCompound, ImmutableList, ImmutableString, ImmutableValue, Index, RefCompound, RefList,
    RefString, RefValue,
};
pub use tag::TagID;
pub use typed_list::{MutTypedList, OwnTypedList, RefTypedList};
pub use value::{OwnCompound, OwnList, OwnString, OwnValue, ValueOwn};


