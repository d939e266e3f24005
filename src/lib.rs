//! Reading, transforming and writing PPM images (the text "P3" and binary "P6"
//! variants). The codec works on bytes; opening and writing files is left to
//! the caller.

pub mod codec;
pub mod decimal;
pub mod image;
pub mod lines;
pub mod number;
pub mod pixel;
pub mod roundtrip;
