//! The errors of the codec and of the bridge.

use crate::tags::TagIdent;
use crate::wire::{char_to_string, io_error_debug};
use vstd::prelude::*;

verus! {

/// `std::io::Error`, carried through as the fault of a byte source or sink.
/// Nothing is known of what is inside.
#[verifier::external_type_specification]
#[verifier::external_body]
pub struct ExIoError(std::io::Error);

#[derive(Debug)]
#[allow(inconsistent_fields)]
pub enum NBTError {
    /// The byte source or sink failed; here, the bytes ran out.
    IO { error: std::io::Error },
    /// A list holds an item of another type than its first.
    InvalidList { found: TagIdent, expecting: TagIdent },
    /// A type byte outside 0 to 12 was read.
    InvalidTag { found: u8 },
    /// A document does not start with a compound.
    InvalidImplicit { found: TagIdent },
    /// The bytes of a string are no modified UTF-8.
    StringError,
    /// An end marker stands where a value was required.
    UnexpectedEndTag,
    /// An error that the host framework raised.
    Custom(String),
    /// A host shape that has no representation.
    UnserializableType { name: String },
    /// A tag of another type than the requested host shape needs.
    InvalidType { found: TagIdent, expecting: TagIdent, when: String },
    /// A character was requested from a string that is not one character long.
    InvalidChar,
    /// A value was requested where none is present.
    NoData { when: String },
    /// A string, an array or a list is longer than its length prefix can say.
    TooLong { length: usize, limit: usize },
    /// More lists and compounds stand one inside the other than the limit.
    TooDeep { limit: usize },
}

pub type NBTResult<T> = Result<T, NBTError>;

/// What an error says: its kind and what it carries, strings as their
/// characters. The fault inside `IO` plays no part.
#[allow(inconsistent_fields)]
pub enum ErrorView {
    IO,
    InvalidList { found: TagIdent, expecting: TagIdent },
    InvalidTag { found: u8 },
    InvalidImplicit { found: TagIdent },
    StringError,
    UnexpectedEndTag,
    Custom(Seq<char>),
    UnserializableType { name: Seq<char> },
    InvalidType { found: TagIdent, expecting: TagIdent, when: Seq<char> },
    InvalidChar,
    NoData { when: Seq<char> },
    TooLong { length: usize, limit: usize },
    TooDeep { limit: usize },
}

impl View for NBTError {
    type V = ErrorView;

    open spec fn view(&self) -> ErrorView {
        match *self {
            NBTError::IO { .. } => ErrorView::IO,
            NBTError::InvalidList { found, expecting } => ErrorView::InvalidList {
                found,
                expecting,
            },
            NBTError::InvalidTag { found } => ErrorView::InvalidTag { found },
            NBTError::InvalidImplicit { found } => ErrorView::InvalidImplicit { found },
            NBTError::StringError => ErrorView::StringError,
            NBTError::UnexpectedEndTag => ErrorView::UnexpectedEndTag,
            NBTError::Custom(message) => ErrorView::Custom(message@),
            NBTError::UnserializableType { name } => ErrorView::UnserializableType {
                name: name@,
            },
            NBTError::InvalidType { found, expecting, when } => ErrorView::InvalidType {
                found,
                expecting,
                when: when@,
            },
            NBTError::InvalidChar => ErrorView::InvalidChar,
            NBTError::NoData { when } => ErrorView::NoData { when: when@ },
            NBTError::TooLong { length, limit } => ErrorView::TooLong { length, limit },
            NBTError::TooDeep { limit } => ErrorView::TooDeep { limit },
        }
    }
}

/// Turns the fault of a byte source or sink into an `NBTError`.
pub fn digest_io<T>(r: Result<T, std::io::Error>) -> (out: NBTResult<T>)
    ensures
        match r {
            Ok(value) => out == Ok::<T, NBTError>(value),
            Err(error) => out == Err::<T, NBTError>(NBTError::IO { error }),
        },
{
    match r {
        Ok(s) => Ok(s),
        Err(e) => Err(NBTError::IO { error: e }),
    }
}

/// The digit of a number below sixteen, in upper case.
pub open spec fn hex_digit(n: int) -> char {
    if n == 0 {
        '0'
    } else if n == 1 {
        '1'
    } else if n == 2 {
        '2'
    } else if n == 3 {
        '3'
    } else if n == 4 {
        '4'
    } else if n == 5 {
        '5'
    } else if n == 6 {
        '6'
    } else if n == 7 {
        '7'
    } else if n == 8 {
        '8'
    } else if n == 9 {
        '9'
    } else if n == 10 {
        'A'
    } else if n == 11 {
        'B'
    } else if n == 12 {
        'C'
    } else if n == 13 {
        'D'
    } else if n == 14 {
        'E'
    } else {
        'F'
    }
}

/// A byte in two hexadecimal digits, upper case.
pub open spec fn hex_byte(value: u8) -> Seq<char> {
    seq![hex_digit(value as int / 16), hex_digit(value as int % 16)]
}

/// A number in decimal digits.
pub open spec fn decimal(n: nat) -> Seq<char>
    decreases n,
{
    if n < 10 {
        seq![hex_digit(n as int)]
    } else {
        decimal(n / 10).push(hex_digit((n % 10) as int))
    }
}

fn hex_digit_of(n: u8) -> (r: char)
    requires
        n < 16,
    ensures
        r == hex_digit(n as int),
{
    match n {
        0 => '0',
        1 => '1',
        2 => '2',
        3 => '3',
        4 => '4',
        5 => '5',
        6 => '6',
        7 => '7',
        8 => '8',
        9 => '9',
        10 => 'A',
        11 => 'B',
        12 => 'C',
        13 => 'D',
        14 => 'E',
        _ => 'F',
    }
}

fn hex_byte_of(value: u8) -> (r: String)
    ensures
        r@ == hex_byte(value),
{
    let mut r = char_to_string(hex_digit_of(value / 16));
    let low = char_to_string(hex_digit_of(value % 16));
    r.append(low.as_str());
    assert(r@ =~= hex_byte(value));
    r
}

fn decimal_of(n: usize) -> (r: String)
    ensures
        r@ == decimal(n as nat),
    decreases n,
{
    if n < 10 {
        char_to_string(hex_digit_of(n as u8))
    } else {
        let mut r = decimal_of(n / 10);
        let last = char_to_string(hex_digit_of((n % 10) as u8));
        r.append(last.as_str());
        assert(r@ =~= decimal(n as nat));
        r
    }
}

impl ErrorView {
    /// The message of an error. Of `IO` it is the start of the message, which
    /// goes on with the fault of the source or sink.
    pub open spec fn message(self) -> Seq<char> {
        match self {
            ErrorView::IO => "An IO error occurred: "@,
            ErrorView::InvalidList { found, expecting } => "Invalid List. Was expecting type "@
                + expecting.name() + " but found "@ + found.name(),
            ErrorView::InvalidTag { found } => "Invalid Tag Identifier with value "@ + hex_byte(
                found,
            ),
            ErrorView::InvalidImplicit { found } =>
                "NBT blob does not start with a compound tag. Found "@ + found.name() + " tag"@,
            ErrorView::StringError => "An error occurred while parsing a UTF-8/CESU8 string"@,
            ErrorView::UnexpectedEndTag => "An Unexpected "@ + TagIdent::TAG_End.name()
                + " was read."@,
            ErrorView::Custom(message) => message,
            ErrorView::UnserializableType { name } => "The type '"@ + name
                + "' cannot be serialized into NBT"@,
            ErrorView::InvalidType { found, expecting, when } => "Found tag "@ + found.name()
                + ", was expecting "@ + expecting.name() + " when deserializing "@ + when,
            ErrorView::InvalidChar => "Failed to deserialize char, length of "@
                + TagIdent::TAG_String.name() + " was not 1"@,
            ErrorView::NoData { when } => "A value was required when deserializing "@ + when
                + ", but none was given."@,
            ErrorView::TooLong { length, limit } => "A length of "@ + decimal(length as nat)
                + " is over the limit of "@ + decimal(limit as nat),
            ErrorView::TooDeep { limit } => "The nesting is deeper than the limit of "@ + decimal(
                limit as nat,
            ),
        }
    }
}

impl NBTError {
    /// The message of the error.
    pub fn to_string(&self) -> (r: String)
        ensures
            if self@ is IO {
                r@.len() >= self@.message().len() && r@.subrange(0, self@.message().len() as int)
                    == self@.message()
            } else {
                r@ == self@.message()
            },
    {
        match self {
            NBTError::IO { error } => {
                let mut r = String::from_str("An IO error occurred: ");
                let ghost start = r@;
                let fault = io_error_debug(error);
                r.append(fault.as_str());
                assert(r@.subrange(0, start.len() as int) =~= start);
                r
            },
            NBTError::InvalidList { found, expecting } => {
                let mut r = String::from_str("Invalid List. Was expecting type ");
                r.append(expecting.to_string().as_str());
                r.append(" but found ");
                r.append(found.to_string().as_str());
                r
            },
            NBTError::InvalidTag { found } => {
                let mut r = String::from_str("Invalid Tag Identifier with value ");
                r.append(hex_byte_of(*found).as_str());
                r
            },
            NBTError::InvalidImplicit { found } => {
                let mut r = String::from_str("NBT blob does not start with a compound tag. Found ");
                r.append(found.to_string().as_str());
                r.append(" tag");
                r
            },
            NBTError::StringError => String::from_str(
                "An error occurred while parsing a UTF-8/CESU8 string",
            ),
            NBTError::UnexpectedEndTag => {
                let mut r = String::from_str("An Unexpected ");
                r.append(TagIdent::TAG_End.to_string().as_str());
                r.append(" was read.");
                r
            },
            NBTError::Custom(e) => e.clone(),
            NBTError::UnserializableType { name } => {
                let mut r = String::from_str("The type '");
                r.append(name.as_str());
                r.append("' cannot be serialized into NBT");
                r
            },
            NBTError::InvalidType { found, expecting, when } => {
                let mut r = String::from_str("Found tag ");
                r.append(found.to_string().as_str());
                r.append(", was expecting ");
                r.append(expecting.to_string().as_str());
                r.append(" when deserializing ");
                r.append(when.as_str());
                r
            },
            NBTError::InvalidChar => {
                let mut r = String::from_str("Failed to deserialize char, length of ");
                r.append(TagIdent::TAG_String.to_string().as_str());
                r.append(" was not 1");
                r
            },
            NBTError::NoData { when } => {
                let mut r = String::from_str("A value was required when deserializing ");
                r.append(when.as_str());
                r.append(", but none was given.");
                r
            },
            NBTError::TooLong { length, limit } => {
                let mut r = String::from_str("A length of ");
                r.append(decimal_of(*length).as_str());
                r.append(" is over the limit of ");
                r.append(decimal_of(*limit).as_str());
                r
            },
            NBTError::TooDeep { limit } => {
                let mut r = String::from_str("The nesting is deeper than the limit of ");
                r.append(decimal_of(*limit).as_str());
                r
            },
        }
    }

    /// An error that the host framework raised, with its message.
    pub fn custom(msg: &str) -> (r: NBTError)
        ensures
            r@ == ErrorView::Custom(msg@),
    {
        NBTError::Custom(String::from_str(msg))
    }
}

} // verus!
