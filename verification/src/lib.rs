//! A verified byte array: the mutable sequence of bytes of Python.
pub mod ascii;
pub mod bytearray;
pub mod bytesinner;
pub mod compare;
pub mod context;
pub mod counter;
pub mod edit;
pub mod error;
pub mod hexadecimal;
pub mod laws;
pub mod layout;
pub mod object;
pub mod outcome;
pub mod parts;
pub mod repr;
pub mod search;
pub mod sliceable;
pub mod span;
pub mod text;
