//! Asset proxy core: request decoding, pack directories, the asset index and
//! the response builder, all on plain bytes so that disk and network work can
//! stay with the caller.

pub mod client;
pub mod codec;
pub mod decimal;
pub mod envelope;
pub mod handler;
pub mod i18n;
pub mod index;
pub mod indexing;
pub mod name;
pub mod names;
pub mod order;
pub mod pack;
pub mod pack_reader;
pub mod path;
pub mod request;
