//! The exceptions that the byte array operations raise.
use crate::text::{decimal, decimal_text};
use vstd::prelude::*;

verus! {

/// The class of a raised exception.
#[derive(Debug, Clone, Copy, PartialEq, Eq, Structural)]
pub enum ExceptionClass {
    BufferError,
    IndexError,
    OverflowError,
    StopIteration,
    TypeError,
    ValueError,
}

/// A raised exception: what went wrong, with the numbers that its message shows.
#[derive(Debug, Clone, Copy, PartialEq, Eq, Structural)]
pub enum PyException {
    /// An operation would resize a byte array whose buffer is exported.
    ExistingExports,
    /// An index lies outside the byte array.
    IndexOutOfRange,
    /// An integer index does not fit an index-sized integer.
    IndexTooLarge,
    /// A subscript is neither an integer nor a slice.
    BadSubscript,
    /// An object that has to be an integer is not one.
    NotAnInteger,
    /// An integer that has to be a byte lies outside `0..256`.
    ByteOutOfRange,
    /// An object that has to yield bytes does not.
    NotByteSource,
    /// An object that has to be bytes-like is not.
    NotBytesLike,
    /// The affix given to `startswith` or `endswith` is neither bytes nor a tuple of bytes.
    BadAffix,
    /// A fill argument is not a byte string of length one.
    BadFillByte,
    /// The byte to remove does not occur.
    ValueNotFound,
    /// The searched subsequence does not occur.
    SubstringNotFound,
    /// The separator is empty.
    EmptySeparator,
    /// The step of a slice is zero.
    SliceStepZero,
    /// An extended slice is assigned a sequence of another size.
    SliceSizeMismatch { given: usize, expected: usize },
    /// A translation table does not have an entry for every byte.
    BadTranslationTable,
    /// The two arguments of `maketrans` differ in length.
    MaketransLengths,
    /// The separator of `hex` is not a single character.
    HexSeparatorLength,
    /// The separator of `hex` is not an ASCII character.
    HexSeparatorNotAscii,
    /// The text given to `fromhex` has no hexadecimal digit where one has to stand.
    NotHexadecimal { position: usize },
    /// A byte array is asked for whose size does not fit an index-sized integer.
    SizeTooLarge,
    /// A byte array of negative size is asked for.
    NegativeCount,
    /// A byte array is made from a string without an encoding.
    StringWithoutEncoding,
    /// An encoding is given without a string.
    EncodingWithoutString,
    /// The hash of a byte array is asked for.
    Unhashable,
    /// An iterator has no further item.
    StopIteration,
}

/// The result of an operation that may raise.
pub type PyResult<T> = Result<T, PyException>;

/// The class of the exception `e`.
pub open spec fn class_of(e: PyException) -> ExceptionClass {
    match e {
        PyException::ExistingExports => ExceptionClass::BufferError,
        PyException::IndexOutOfRange | PyException::IndexTooLarge => ExceptionClass::IndexError,
        PyException::SizeTooLarge => ExceptionClass::OverflowError,
        PyException::BadSubscript
        | PyException::NotAnInteger
        | PyException::NotByteSource
        | PyException::NotBytesLike
        | PyException::BadAffix
        | PyException::BadFillByte
        | PyException::StringWithoutEncoding
        | PyException::EncodingWithoutString
        | PyException::Unhashable => ExceptionClass::TypeError,
        PyException::ByteOutOfRange
        | PyException::ValueNotFound
        | PyException::SubstringNotFound
        | PyException::EmptySeparator
        | PyException::SliceStepZero
        | PyException::SliceSizeMismatch { .. }
        | PyException::BadTranslationTable
        | PyException::MaketransLengths
        | PyException::HexSeparatorLength
        | PyException::HexSeparatorNotAscii
        | PyException::NotHexadecimal { .. }
        | PyException::NegativeCount => ExceptionClass::ValueError,
        PyException::StopIteration => ExceptionClass::StopIteration,
    }
}

/// The message of the exception `e`.
pub open spec fn message_of(e: PyException) -> Seq<char> {
    match e {
        PyException::ExistingExports => "Existing exports of data: object cannot be re-sized"@,
        PyException::IndexOutOfRange => "index out of range"@,
        PyException::IndexTooLarge | PyException::SizeTooLarge =>
            "cannot fit 'int' into an index-sized integer"@,
        PyException::BadSubscript => "bytearray indices must be integers or slices"@,
        PyException::NotAnInteger => "object cannot be interpreted as an integer"@,
        PyException::ByteOutOfRange => "byte must be in range(0, 256)"@,
        PyException::NotByteSource =>
            "can assign only bytes, buffers, or iterables of ints in range(0, 256)"@,
        PyException::NotBytesLike => "a bytes-like object is required"@,
        PyException::BadAffix => "first arg must be bytes or a tuple of bytes"@,
        PyException::BadFillByte => "argument 2 must be a byte string of length 1"@,
        PyException::ValueNotFound => "value not found in bytearray"@,
        PyException::SubstringNotFound => "substring not found"@,
        PyException::EmptySeparator => "empty separator"@,
        PyException::SliceStepZero => "slice step cannot be zero"@,
        PyException::SliceSizeMismatch { given, expected } => "attempt to assign sequence of size "@
            + decimal_text(given as nat) + " to extended slice of size "@ + decimal_text(
            expected as nat,
        ),
        PyException::BadTranslationTable => "translation table must be 256 characters long"@,
        PyException::MaketransLengths => "the two maketrans arguments must have equal length"@,
        PyException::HexSeparatorLength => "sep must be length 1."@,
        PyException::HexSeparatorNotAscii => "sep must be ASCII."@,
        PyException::NotHexadecimal { position } =>
            "non-hexadecimal number found in fromhex() arg at position "@ + decimal_text(
            position as nat,
        ),
        PyException::NegativeCount => "negative count"@,
        PyException::StringWithoutEncoding => "string argument without an encoding"@,
        PyException::EncodingWithoutString => "encoding without a string argument"@,
        PyException::Unhashable => "unhashable type: 'bytearray'"@,
        PyException::StopIteration => ""@,
    }
}

impl PyException {
    /// The class of the exception.
    pub fn class(&self) -> (r: ExceptionClass)
        ensures
            r == class_of(*self),
    {
        match self {
            PyException::ExistingExports => ExceptionClass::BufferError,
            PyException::IndexOutOfRange | PyException::IndexTooLarge => ExceptionClass::IndexError,
            PyException::SizeTooLarge => ExceptionClass::OverflowError,
            PyException::BadSubscript
            | PyException::NotAnInteger
            | PyException::NotByteSource
            | PyException::NotBytesLike
            | PyException::BadAffix
            | PyException::BadFillByte
            | PyException::StringWithoutEncoding
            | PyException::EncodingWithoutString
            | PyException::Unhashable => ExceptionClass::TypeError,
            PyException::StopIteration => ExceptionClass::StopIteration,
            _ => ExceptionClass::ValueError,
        }
    }

    /// The message of the exception.
    pub fn message(&self) -> (r: String)
        ensures
            r@ == message_of(*self),
    {
        match self {
            PyException::ExistingExports =>
                "Existing exports of data: object cannot be re-sized".to_owned(),
            PyException::IndexOutOfRange => "index out of range".to_owned(),
            PyException::IndexTooLarge | PyException::SizeTooLarge => "cannot fit 'int' into an index-sized integer".to_owned(),
            PyException::BadSubscript => "bytearray indices must be integers or slices".to_owned(),
            PyException::NotAnInteger => "object cannot be interpreted as an integer".to_owned(),
            PyException::ByteOutOfRange => "byte must be in range(0, 256)".to_owned(),
            PyException::NotByteSource =>
                "can assign only bytes, buffers, or iterables of ints in range(0, 256)".to_owned(),
            PyException::NotBytesLike => "a bytes-like object is required".to_owned(),
            PyException::BadAffix => "first arg must be bytes or a tuple of bytes".to_owned(),
            PyException::BadFillByte => "argument 2 must be a byte string of length 1".to_owned(),
            PyException::ValueNotFound => "value not found in bytearray".to_owned(),
            PyException::SubstringNotFound => "substring not found".to_owned(),
            PyException::EmptySeparator => "empty separator".to_owned(),
            PyException::SliceStepZero => "slice step cannot be zero".to_owned(),
            PyException::SliceSizeMismatch { given, expected } => {
                let mut text = "attempt to assign sequence of size ".to_owned();
                text.append(decimal(*given).as_str());
                text.append(" to extended slice of size ");
                text.append(decimal(*expected).as_str());
                text
            },
            PyException::BadTranslationTable =>
                "translation table must be 256 characters long".to_owned(),
            PyException::MaketransLengths => "the two maketrans arguments must have equal length".to_owned(),
            PyException::HexSeparatorLength => "sep must be length 1.".to_owned(),
            PyException::HexSeparatorNotAscii => "sep must be ASCII.".to_owned(),
            PyException::NotHexadecimal { position } => {
                let mut text =
                    "non-hexadecimal number found in fromhex() arg at position ".to_owned();
                text.append(decimal(*position).as_str());
                text
            },
            PyException::NegativeCount => "negative count".to_owned(),
            PyException::StringWithoutEncoding => "string argument without an encoding".to_owned(),
            PyException::EncodingWithoutString => "encoding without a string argument".to_owned(),
            PyException::Unhashable => "unhashable type: 'bytearray'".to_owned(),
            PyException::StopIteration => "".to_owned(),
        }
    }
}

} // verus!
