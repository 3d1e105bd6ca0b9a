//! An executable packer: the container format that a packed stub carries
//! (a loader template followed by marker-delimited sections), the codec
//! that compresses its payloads, the packing of companion files, the
//! decisions of the stub at run time, and the icon reader for PE images.

pub mod codec;
pub mod container;
pub mod decimal;
pub mod encoding;
pub mod icon;
pub mod pack;
pub mod runtime;
pub mod text;
pub mod version;
