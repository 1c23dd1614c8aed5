//! [Church encodings](https://en.wikipedia.org/wiki/Church_encoding) of
//! plain data types as closed lambda terms.

pub mod boolean;
pub mod convert;
pub mod option;
