//! A verified codec for BSON: the binary document format, borrowed views over its
//! bytes, an owned value tree, and the special keys of extended JSON.

pub mod array;
pub mod binary;
pub mod codec;
pub mod de;
pub mod extjson;
pub mod laws;
pub mod owned;
pub mod raw;
pub mod ser;
pub mod spec;
pub mod types;
pub mod value;
