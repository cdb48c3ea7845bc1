//! A codec for SUPERHOT save files: a fixed header, a length-prefixed JSON
//! document of four typed dictionaries, and a trailing sentinel byte.

pub mod container;
pub mod dictionary;
pub mod document;
pub mod json;
pub mod key_order;
pub mod leb128;
pub mod model;
pub mod options;
pub mod save;
