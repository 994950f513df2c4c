//! What holds of the byte array as a whole: laws that relate its operations to each other.
pub mod arguments;
pub mod case;
pub mod columns;
pub mod digits;
pub mod editing;
pub mod finding;
pub mod letters;
pub mod making;
pub mod mutation;
pub mod order;
pub mod pieces;
pub mod results;
pub mod searching;
pub mod selection;
pub mod slices;
pub mod text;
pub mod words;
