//! The schema of a collection, and the codec of its properties: what a valid
//! value is, and the fixed-width, order-preserving key that stands for it
//! in an index.

use vstd::prelude::*;
use vstd::string::*;
use vstd::utf8::encode_utf8;
use crate::document::{canonical_text, json_text, Document, DocumentView};
use crate::error::{ContractError, ErrorKind};
use crate::keys::{
    be_bytes,
    be_decode,
    be_encode,
    be_value,
    lemma_be_bytes_len,
    lemma_be_bytes_monotone,
    lemma_be_bytes_of_value,
    lemma_be_value_of_bytes,
    lemma_span_values,
    lemma_padding_keeps_order,
    lex_lt,
    padded,
    span,
    zeros,
};
use crate::text::{decimal, decimal_text, decimal_value, lemma_decimal_round_trip, parse_decimal};

verus! {

pub const DEFAULT_PADDING_STRING: u16 = 1024;

pub const DEFAULT_PADDING_ARRAY: u16 = 1024;

pub const DEFAULT_PADDING_OBJECT: u16 = 1024;

/// What the documents of a collection look like: a name and the declared
/// properties, in order.
#[derive(Debug)]
pub struct EntitySchema {
    pub name: String,
    pub properties: Vec<EntityProperty>,
}

/// One declared property.
#[derive(Debug)]
pub struct EntityProperty {
    pub indexed: Option<bool>,
    pub required: Option<bool>,
    pub value: EntityPropertyParams,
    pub name: String,
}

/// The type of a property. Strings, arrays and objects have a capacity in
/// bytes, 1024 where none is given.
#[derive(Clone, Copy, Debug)]
pub enum EntityPropertyParams {
    Array { max_byte_size: Option<u16> },
    Object { max_byte_size: Option<u16> },
    String { max_byte_size: Option<u16> },
    U8 {  },
    U16 {  },
    U32 {  },
    U64 {  },
    U128 {  },
    I8 {  },
    I16 {  },
    I32 {  },
    I64 {  },
    I128 {  },
    Bool {  },
}

/// The rule that a value breaks.
#[derive(PartialEq, Eq, Structural, Clone, Copy, Debug)]
pub enum Rule {
    ExpectedString,
    ExpectedObject,
    ExpectedArray,
    ExpectedBoolean,
    BeyondCapacity,
    TooLarge,
    TooSmall,
    InvalidType,
    InvalidU128,
    InvalidI128,
    NotDecodable,
}

impl Rule {
    /// The words that name the rule in an error.
    pub open spec fn text(self) -> Seq<char> {
        match self {
            Rule::ExpectedString => "expected string"@,
            Rule::ExpectedObject => "expected object"@,
            Rule::ExpectedArray => "expected array"@,
            Rule::ExpectedBoolean => "expected boolean"@,
            Rule::BeyondCapacity => "beyond allowed max byte size"@,
            Rule::TooLarge => "too large"@,
            Rule::TooSmall => "too small"@,
            Rule::InvalidType => "invalid type"@,
            Rule::InvalidU128 => "invalid u128"@,
            Rule::InvalidI128 => "invalid i128"@,
            Rule::NotDecodable => "not decodable"@,
        }
    }

    pub fn words(self) -> (words: &'static str)
        ensures
            words@ == self.text(),
    {
        match self {
            Rule::ExpectedString => "expected string",
            Rule::ExpectedObject => "expected object",
            Rule::ExpectedArray => "expected array",
            Rule::ExpectedBoolean => "expected boolean",
            Rule::BeyondCapacity => "beyond allowed max byte size",
            Rule::TooLarge => "too large",
            Rule::TooSmall => "too small",
            Rule::InvalidType => "invalid type",
            Rule::InvalidU128 => "invalid u128",
            Rule::InvalidI128 => "invalid i128",
            Rule::NotDecodable => "not decodable",
        }
    }
}

/// The capacity that a declared size stands for.
pub open spec fn capacity_of(max_byte_size: Option<u16>) -> nat {
    match max_byte_size {
        Some(n) => n as nat,
        None => 1024,
    }
}

/// The reason that a validation error gives: the property, then the rule.
pub open spec fn failure_reason(name: Seq<char>, words: Seq<char>) -> Seq<char> {
    name + " - "@ + words
}

impl EntityPropertyParams {
    /// The capacity in bytes of a string, array or object property.
    pub open spec fn capacity(self) -> Option<nat> {
        match self {
            EntityPropertyParams::Array { max_byte_size } => Some(capacity_of(max_byte_size)),
            EntityPropertyParams::Object { max_byte_size } => Some(capacity_of(max_byte_size)),
            EntityPropertyParams::String { max_byte_size } => Some(capacity_of(max_byte_size)),
            _ => None,
        }
    }

    /// The least and the greatest number of an integer property.
    pub open spec fn range(self) -> Option<(int, int)> {
        match self {
            EntityPropertyParams::U8 {  } => Some((0, u8::MAX as int)),
            EntityPropertyParams::U16 {  } => Some((0, u16::MAX as int)),
            EntityPropertyParams::U32 {  } => Some((0, u32::MAX as int)),
            EntityPropertyParams::U64 {  } => Some((0, u64::MAX as int)),
            EntityPropertyParams::U128 {  } => Some((0, u128::MAX as int)),
            EntityPropertyParams::I8 {  } => Some((i8::MIN as int, i8::MAX as int)),
            EntityPropertyParams::I16 {  } => Some((i16::MIN as int, i16::MAX as int)),
            EntityPropertyParams::I32 {  } => Some((i32::MIN as int, i32::MAX as int)),
            EntityPropertyParams::I64 {  } => Some((i64::MIN as int, i64::MAX as int)),
            EntityPropertyParams::I128 {  } => Some((i128::MIN as int, i128::MAX as int)),
            _ => None,
        }
    }

    /// The least number of an integer property.
    pub open spec fn least(self) -> int {
        match self.range() {
            Some((least, _)) => least,
            None => 0,
        }
    }

    /// The greatest number of an integer property.
    pub open spec fn greatest(self) -> int {
        match self.range() {
            Some((_, greatest)) => greatest,
            None => 0,
        }
    }

    /// How many bytes every key of the property has.
    pub open spec fn width(self) -> nat {
        match self {
            EntityPropertyParams::Array { max_byte_size } => capacity_of(max_byte_size),
            EntityPropertyParams::Object { max_byte_size } => capacity_of(max_byte_size),
            EntityPropertyParams::String { max_byte_size } => capacity_of(max_byte_size),
            EntityPropertyParams::U8 {  } => 1,
            EntityPropertyParams::U16 {  } => 2,
            EntityPropertyParams::U32 {  } => 4,
            EntityPropertyParams::U64 {  } => 8,
            EntityPropertyParams::U128 {  } => 16,
            EntityPropertyParams::I8 {  } => 1,
            EntityPropertyParams::I16 {  } => 2,
            EntityPropertyParams::I32 {  } => 4,
            EntityPropertyParams::I64 {  } => 8,
            EntityPropertyParams::I128 {  } => 16,
            EntityPropertyParams::Bool {  } => 1,
        }
    }

    /// The bytes that stand for a string, array or object before padding:
    /// the UTF-8 bytes of a string, and of the compact JSON text of an
    /// array or object. `None` where the value has another shape.
    pub open spec fn content(self, value: DocumentView) -> Option<Seq<u8>> {
        match (self, value) {
            (EntityPropertyParams::String { .. }, DocumentView::String(s)) => Some(encode_utf8(s)),
            (EntityPropertyParams::Array { .. }, DocumentView::Array(_)) => Some(
                encode_utf8(json_text(value)),
            ),
            (EntityPropertyParams::Object { .. }, DocumentView::Object(_)) => Some(
                encode_utf8(json_text(value)),
            ),
            _ => None,
        }
    }

    /// The number that a value gives to an integer property: an integer
    /// as it is, and for the 128-bit types the number that a string writes
    /// in decimal. `None` where the value gives none.
    pub open spec fn number(self, value: DocumentView) -> Option<int> {
        match (self, value) {
            (EntityPropertyParams::U128 {  }, DocumentView::String(s)) => decimal_value(s, false),
            (EntityPropertyParams::U128 {  }, _) => None,
            (EntityPropertyParams::I128 {  }, DocumentView::String(s)) => decimal_value(s, true),
            (_, DocumentView::Integer(n)) => if self.range() is Some {
                Some(n)
            } else {
                None
            },
            _ => None,
        }
    }

    /// The rule that `value` breaks, if any: the first of shape, then size.
    pub open spec fn check(self, value: DocumentView) -> Option<Rule> {
        match self {
            EntityPropertyParams::String { .. } => match self.content(value) {
                Some(bytes) => if bytes.len() > self.width() {
                    Some(Rule::BeyondCapacity)
                } else {
                    None
                },
                None => Some(Rule::ExpectedString),
            },
            EntityPropertyParams::Object { .. } => match self.content(value) {
                Some(bytes) => if bytes.len() > self.width() {
                    Some(Rule::BeyondCapacity)
                } else {
                    None
                },
                None => Some(Rule::ExpectedObject),
            },
            EntityPropertyParams::Array { .. } => match self.content(value) {
                Some(bytes) => if bytes.len() > self.width() {
                    Some(Rule::BeyondCapacity)
                } else {
                    None
                },
                None => Some(Rule::ExpectedArray),
            },
            EntityPropertyParams::Bool {  } => if value is Bool {
                None
            } else {
                Some(Rule::ExpectedBoolean)
            },
            EntityPropertyParams::U128 {  } => match self.number(value) {
                Some(n) => if n <= u128::MAX {
                    None
                } else {
                    Some(Rule::InvalidU128)
                },
                None => Some(Rule::InvalidU128),
            },
            EntityPropertyParams::I128 {  } => match value {
                DocumentView::String(_) => match self.number(value) {
                    Some(n) => if i128::MIN <= n <= i128::MAX {
                        None
                    } else {
                        Some(Rule::InvalidI128)
                    },
                    None => Some(Rule::InvalidI128),
                },
                DocumentView::Integer(n) => if n > i128::MAX {
                    Some(Rule::TooLarge)
                } else if n < i128::MIN {
                    Some(Rule::TooSmall)
                } else {
                    None
                },
                _ => Some(Rule::InvalidType),
            },
            _ => match value {
                DocumentView::Integer(n) => if n > self.greatest() {
                    Some(Rule::TooLarge)
                } else if n < self.least() {
                    Some(Rule::TooSmall)
                } else {
                    None
                },
                _ => Some(Rule::InvalidType),
            },
        }
    }

    /// The key of a valid value: `width()` bytes.
    ///
    /// A string, array or object is its content, padded with zero bytes. A
    /// boolean is one byte, 0 or 1. An integer is its distance from the
    /// least number of the type, most significant byte first: for an
    /// unsigned type the number itself, for a signed type its two's
    /// complement with the sign bit inverted, so that negative numbers come
    /// first.
    pub open spec fn encoding(self, value: DocumentView) -> Seq<u8> {
        match self {
            EntityPropertyParams::Bool {  } => seq![
                if value == DocumentView::Bool(true) {
                    1u8
                } else {
                    0u8
                },
            ],
            _ => match self.range() {
                Some((least, _)) => be_bytes((self.number(value)->0 - least) as nat, self.width()),
                None => padded(self.content(value)->0, self.width()),
            },
        }
    }

    /// The width of the property's keys.
    pub fn key_width(&self) -> (width: usize)
        ensures
            width == self.width(),
    {
        match self {
            EntityPropertyParams::Array { max_byte_size } => capacity(*max_byte_size),
            EntityPropertyParams::Object { max_byte_size } => capacity(*max_byte_size),
            EntityPropertyParams::String { max_byte_size } => capacity(*max_byte_size),
            EntityPropertyParams::U8 {  } => 1,
            EntityPropertyParams::U16 {  } => 2,
            EntityPropertyParams::U32 {  } => 4,
            EntityPropertyParams::U64 {  } => 8,
            EntityPropertyParams::U128 {  } => 16,
            EntityPropertyParams::I8 {  } => 1,
            EntityPropertyParams::I16 {  } => 2,
            EntityPropertyParams::I32 {  } => 4,
            EntityPropertyParams::I64 {  } => 8,
            EntityPropertyParams::I128 {  } => 16,
            EntityPropertyParams::Bool {  } => 1,
        }
    }
}

fn capacity(max_byte_size: Option<u16>) -> (capacity: usize)
    ensures
        capacity == capacity_of(max_byte_size),
{
    match max_byte_size {
        Some(n) => n as usize,
        None => DEFAULT_PADDING_STRING as usize,
    }
}

/// The integer that a document holds, if it is one.
fn integer_of(value: &Document) -> (n: Option<i128>)
    ensures
        match n {
            Some(n) => value@ == DocumentView::Integer(n as int),
            None => !(value@ is Integer),
        },
{
    match value {
        Document::Unsigned(n) => Some(*n as i128),
        Document::Signed(n) => Some(*n as i128),
        _ => None,
    }
}

impl EntityProperty {
    pub open spec fn is_indexed(&self) -> bool {
        self.indexed == Some(true)
    }

    pub open spec fn is_required(&self) -> bool {
        self.required == Some(true)
    }

    /// What `validate` and `to_bytes` return for a value that breaks `rule`.
    pub open spec fn rejects(&self, error: ContractError, rule: Rule) -> bool {
        error.says(ErrorKind::ValidationError, failure_reason(self.name@, rule.text()))
    }

    /// A validation error that names this property and gives `reason`.
    pub fn validation_error(&self, reason: &str) -> (outcome: Result<(), ContractError>)
        ensures
            outcome is Err,
            outcome->Err_0.says(ErrorKind::ValidationError, failure_reason(self.name@, reason@)),
    {
        let mut text = self.name.clone();
        text.append(" - ");
        text.append(reason);
        Err(ContractError::ValidationError { reason: text })
    }

    fn violation(&self, rule: Rule) -> (error: ContractError)
        ensures
            self.rejects(error, rule),
    {
        let mut text = self.name.clone();
        text.append(" - ");
        text.append(rule.words());
        ContractError::ValidationError { reason: text }
    }

    /// Pads `vec` with zero bytes up to `target_length`; refuses one that
    /// is longer.
    pub fn pad(&self, vec: Vec<u8>, target_length: usize) -> (outcome: Result<
        Vec<u8>,
        ContractError,
    >)
        ensures
            match outcome {
                Ok(bytes) => vec@.len() <= target_length && bytes@ == padded(
                    vec@,
                    target_length as nat,
                ),
                Err(error) => vec@.len() > target_length && self.rejects(
                    error,
                    Rule::BeyondCapacity,
                ),
            },
    {
        if vec.len() > target_length {
            return Err(self.violation(Rule::BeyondCapacity));
        }
        let mut bytes = vec;
        while bytes.len() < target_length
            invariant
                vec@.len() <= bytes@.len() <= target_length,
                bytes@ == vec@ + zeros((bytes@.len() - vec@.len()) as nat),
            decreases target_length - bytes@.len(),
        {
            bytes.push(0);
            assert(bytes@ =~= vec@ + zeros((bytes@.len() - vec@.len()) as nat));
        }
        Ok(bytes)
    }

    /// The content of a string, array or object value, where the value has
    /// the shape that the property asks for.
    fn content_bytes(&self, value: &Document) -> (bytes: Option<Vec<u8>>)
        ensures
            match bytes {
                Some(bytes) => self.value.content(value@) == Some(bytes@),
                None => self.value.content(value@) is None,
            },
    {
        match (&self.value, value) {
            (EntityPropertyParams::String { .. }, Document::String(s)) => Some(
                s.as_str().as_bytes_vec(),
            ),
            (EntityPropertyParams::Array { .. }, Document::Array(_)) => Some(
                canonical_text(value).as_str().as_bytes_vec(),
            ),
            (EntityPropertyParams::Object { .. }, Document::Object(_)) => Some(
                canonical_text(value).as_str().as_bytes_vec(),
            ),
            _ => None,
        }
    }

    fn sized(&self, value: &Document, otherwise: Rule) -> (outcome: Result<
        Vec<u8>,
        ContractError,
    >)
        requires
            self.value.capacity() is Some,
            otherwise == match self.value {
                EntityPropertyParams::String { .. } => Rule::ExpectedString,
                EntityPropertyParams::Object { .. } => Rule::ExpectedObject,
                _ => Rule::ExpectedArray,
            },
        ensures
            self.encodes(value@, outcome),
    {
        match self.content_bytes(value) {
            Some(bytes) => self.pad(bytes, self.value.key_width()),
            None => Err(self.violation(otherwise)),
        }
    }

    /// What `to_bytes` returns: the key of a valid value, and for any
    /// other value the error that names the rule it breaks.
    pub open spec fn encodes(&self, value: DocumentView, outcome: Result<Vec<u8>, ContractError>)
        -> bool {
        match self.value.check(value) {
            None => outcome is Ok && outcome->Ok_0@ == self.value.encoding(value),
            Some(rule) => outcome is Err && self.rejects(outcome->Err_0, rule),
        }
    }

    fn validate_string(&self, value: &Document, max_byte_size: Option<u16>) -> (outcome: Result<
        (),
        ContractError,
    >)
        requires
            self.value == (EntityPropertyParams::String { max_byte_size }),
        ensures
            self.validates(value@, outcome),
    {
        match self.sized(value, Rule::ExpectedString) {
            Ok(_) => Ok(()),
            Err(error) => Err(error),
        }
    }

    fn validate_object(&self, value: &Document, max_byte_size: Option<u16>) -> (outcome: Result<
        (),
        ContractError,
    >)
        requires
            self.value == (EntityPropertyParams::Object { max_byte_size }),
        ensures
            self.validates(value@, outcome),
    {
        match self.sized(value, Rule::ExpectedObject) {
            Ok(_) => Ok(()),
            Err(error) => Err(error),
        }
    }

    fn validate_array(&self, value: &Document, max_byte_size: Option<u16>) -> (outcome: Result<
        (),
        ContractError,
    >)
        requires
            self.value == (EntityPropertyParams::Array { max_byte_size }),
        ensures
            self.validates(value@, outcome),
    {
        match self.sized(value, Rule::ExpectedArray) {
            Ok(_) => Ok(()),
            Err(error) => Err(error),
        }
    }

    fn validate_bool(&self, value: &Document) -> (outcome: Result<(), ContractError>)
        requires
            self.value == (EntityPropertyParams::Bool {  }),
        ensures
            self.validates(value@, outcome),
    {
        match value {
            Document::Bool(_) => Ok(()),
            _ => Err(self.violation(Rule::ExpectedBoolean)),
        }
    }

    /// The number of a 128-bit value given as decimal text, as its distance
    /// from the least number of the type.
    fn wide_number(&self, value: &Document) -> (outcome: Result<u128, ContractError>)
        requires
            self.value == (EntityPropertyParams::U128 {  }) || self.value == (
            EntityPropertyParams::I128 {  }),
        ensures
            match self.value.check(value@) {
                None => outcome is Ok && outcome->Ok_0 == self.value.number(value@)->0
                    - self.value.least(),
                Some(rule) => outcome is Err && self.rejects(outcome->Err_0, rule),
            },
    {
        let signed = match self.value {
            EntityPropertyParams::I128 {  } => true,
            _ => false,
        };
        let invalid = if signed {
            Rule::InvalidI128
        } else {
            Rule::InvalidU128
        };
        match value {
            Document::String(s) => {
                match parse_decimal(s.as_str(), signed) {
                    Some(parsed) => {
                        if !signed {
                            Ok(parsed.magnitude)
                        } else if parsed.negative {
                            if parsed.magnitude > 0x8000_0000_0000_0000_0000_0000_0000_0000u128 {
                                Err(self.violation(invalid))
                            } else {
                                Ok(0x8000_0000_0000_0000_0000_0000_0000_0000u128 - parsed.magnitude)
                            }
                        } else {
                            if parsed.magnitude > 0x7fff_ffff_ffff_ffff_ffff_ffff_ffff_ffffu128 {
                                Err(self.violation(invalid))
                            } else {
                                Ok(parsed.magnitude + 0x8000_0000_0000_0000_0000_0000_0000_0000u128)
                            }
                        }
                    },
                    None => Err(self.violation(invalid)),
                }
            },
            _ => {
                if signed {
                    match integer_of(value) {
                        Some(n) => {
                            if n < 0 {
                                Ok(0x8000_0000_0000_0000_0000_0000_0000_0000u128 - ((-n) as u128))
                            } else {
                                Ok(n as u128 + 0x8000_0000_0000_0000_0000_0000_0000_0000u128)
                            }
                        },
                        None => Err(self.violation(Rule::InvalidType)),
                    }
                } else {
                    Err(self.violation(invalid))
                }
            },
        }
    }

    fn validate_u128(&self, value: &Document) -> (outcome: Result<(), ContractError>)
        requires
            self.value == (EntityPropertyParams::U128 {  }),
        ensures
            self.validates(value@, outcome),
    {
        match self.wide_number(value) {
            Ok(_) => Ok(()),
            Err(error) => Err(error),
        }
    }

    fn validate_i128(&self, value: &Document) -> (outcome: Result<(), ContractError>)
        requires
            self.value == (EntityPropertyParams::I128 {  }),
        ensures
            self.validates(value@, outcome),
    {
        match self.wide_number(value) {
            Ok(_) => Ok(()),
            Err(error) => Err(error),
        }
    }

    /// The number of a value of an integer type of at most 64 bits, as its
    /// distance from `min`.
    fn narrow_number(&self, value: &Document, min: i128, max: i128) -> (outcome: Result<
        u128,
        ContractError,
    >)
        requires
            self.value.range() == Some((min as int, max as int)),
            !(self.value == (EntityPropertyParams::U128 {  })),
            !(self.value == (EntityPropertyParams::I128 {  })),
        ensures
            match self.value.check(value@) {
                None => outcome is Ok && outcome->Ok_0 == self.value.number(value@)->0 - min,
                Some(rule) => outcome is Err && self.rejects(outcome->Err_0, rule),
            },
    {
        match integer_of(value) {
            Some(n) => {
                if n > max {
                    Err(self.violation(Rule::TooLarge))
                } else if n < min {
                    Err(self.violation(Rule::TooSmall))
                } else {
                    Ok((n - min) as u128)
                }
            },
            None => Err(self.violation(Rule::InvalidType)),
        }
    }

    fn validate_number(&self, value: &Document, min: i128, max: i128) -> (outcome: Result<
        (),
        ContractError,
    >)
        requires
            self.value.range() == Some((min as int, max as int)),
            !(self.value == (EntityPropertyParams::U128 {  })),
            !(self.value == (EntityPropertyParams::I128 {  })),
        ensures
            self.validates(value@, outcome),
    {
        match self.narrow_number(value, min, max) {
            Ok(_) => Ok(()),
            Err(error) => Err(error),
        }
    }

    /// What `validate` returns: `Ok` for a valid value, and for any other
    /// the error that names the rule it breaks.
    pub open spec fn validates(&self, value: DocumentView, outcome: Result<(), ContractError>)
        -> bool {
        match self.value.check(value) {
            None => outcome is Ok,
            Some(rule) => outcome is Err && self.rejects(outcome->Err_0, rule),
        }
    }

    /// Checks the shape of `value` against the property's type, and its
    /// size or range against the type's bounds.
    pub fn validate(&self, value: &Document) -> (outcome: Result<(), ContractError>)
        ensures
            self.validates(value@, outcome),
    {
        match self.value {
            EntityPropertyParams::String { max_byte_size } => self.validate_string(
                value,
                max_byte_size,
            ),
            EntityPropertyParams::Object { max_byte_size } => self.validate_object(
                value,
                max_byte_size,
            ),
            EntityPropertyParams::Array { max_byte_size } => self.validate_array(
                value,
                max_byte_size,
            ),
            EntityPropertyParams::Bool {  } => self.validate_bool(value),
            EntityPropertyParams::U8 {  } => self.validate_number(value, 0, u8::MAX as i128),
            EntityPropertyParams::U16 {  } => self.validate_number(value, 0, u16::MAX as i128),
            EntityPropertyParams::U32 {  } => self.validate_number(value, 0, u32::MAX as i128),
            EntityPropertyParams::U64 {  } => self.validate_number(value, 0, u64::MAX as i128),
            EntityPropertyParams::U128 {  } => self.validate_u128(value),
            EntityPropertyParams::I8 {  } => self.validate_number(
                value,
                i8::MIN as i128,
                i8::MAX as i128,
            ),
            EntityPropertyParams::I16 {  } => self.validate_number(
                value,
                i16::MIN as i128,
                i16::MAX as i128,
            ),
            EntityPropertyParams::I32 {  } => self.validate_number(
                value,
                i32::MIN as i128,
                i32::MAX as i128,
            ),
            EntityPropertyParams::I64 {  } => self.validate_number(
                value,
                i64::MIN as i128,
                i64::MAX as i128,
            ),
            EntityPropertyParams::I128 {  } => self.validate_i128(value),
        }
    }

    fn numbered(&self, distance: Result<u128, ContractError>, value: &Document) -> (outcome:
        Result<Vec<u8>, ContractError>)
        requires
            self.value.range() is Some,
            match self.value.check(value@) {
                None => distance is Ok && distance->Ok_0 == self.value.number(value@)->0
                    - self.value.least(),
                Some(rule) => distance is Err && self.rejects(distance->Err_0, rule),
            },
        ensures
            self.encodes(value@, outcome),
    {
        match distance {
            Ok(distance) => Ok(be_encode(distance, self.value.key_width())),
            Err(error) => Err(error),
        }
    }

    /// The key that stands for `value` in the property's index; the error
    /// of `validate` for a value that is not valid.
    pub fn to_bytes(&self, value: &Document) -> (outcome: Result<Vec<u8>, ContractError>)
        ensures
            self.encodes(value@, outcome),
    {
        match self.value {
            EntityPropertyParams::String { .. } => self.sized(value, Rule::ExpectedString),
            EntityPropertyParams::Array { .. } => self.sized(value, Rule::ExpectedArray),
            EntityPropertyParams::Object { .. } => self.sized(value, Rule::ExpectedObject),
            EntityPropertyParams::U8 {  } => self.numbered(
                self.narrow_number(value, 0, u8::MAX as i128),
                value,
            ),
            EntityPropertyParams::U16 {  } => self.numbered(
                self.narrow_number(value, 0, u16::MAX as i128),
                value,
            ),
            EntityPropertyParams::U32 {  } => self.numbered(
                self.narrow_number(value, 0, u32::MAX as i128),
                value,
            ),
            EntityPropertyParams::U64 {  } => self.numbered(
                self.narrow_number(value, 0, u64::MAX as i128),
                value,
            ),
            EntityPropertyParams::U128 {  } => self.numbered(self.wide_number(value), value),
            EntityPropertyParams::I8 {  } => self.numbered(
                self.narrow_number(value, i8::MIN as i128, i8::MAX as i128),
                value,
            ),
            EntityPropertyParams::I16 {  } => self.numbered(
                self.narrow_number(value, i16::MIN as i128, i16::MAX as i128),
                value,
            ),
            EntityPropertyParams::I32 {  } => self.numbered(
                self.narrow_number(value, i32::MIN as i128, i32::MAX as i128),
                value,
            ),
            EntityPropertyParams::I64 {  } => self.numbered(
                self.narrow_number(value, i64::MIN as i128, i64::MAX as i128),
                value,
            ),
            EntityPropertyParams::I128 {  } => self.numbered(self.wide_number(value), value),
            EntityPropertyParams::Bool {  } => match value {
                Document::Bool(b) => {
                    let mut bytes: Vec<u8> = Vec::new();
                    bytes.push(
                        if *b {
                            1u8
                        } else {
                            0u8
                        },
                    );
                    assert(bytes@ =~= self.value.encoding(value@));
                    Ok(bytes)
                },
                _ => Err(self.violation(Rule::ExpectedBoolean)),
            },
        }
    }
}

impl EntityProperty {
    /// The key under which a value is indexed: none for a value that is
    /// absent or not valid.
    pub open spec fn key_of(&self, value: Option<DocumentView>) -> Option<Seq<u8>> {
        match value {
            Some(v) => if self.value.check(v) is None {
                Some(self.value.encoding(v))
            } else {
                None
            },
            None => None,
        }
    }

    /// `document` has this property, and `key` is the key of its value.
    pub open spec fn holds(&self, document: DocumentView, key: Seq<u8>) -> bool {
        self.key_of(document.lookup(self.name@)) == Some(key)
    }

    /// Why `document` fails this property, if it does: its value breaks a
    /// rule, or the property is required and missing.
    pub open spec fn fault(&self, document: DocumentView) -> Option<Seq<char>> {
        match document.lookup(self.name@) {
            Some(value) => match self.value.check(value) {
                Some(rule) => Some(failure_reason(self.name@, rule.text())),
                None => None,
            },
            None => if self.is_required() {
                Some(self.name@ + " required"@)
            } else {
                None
            },
        }
    }

    /// Checks the member of `document` that this property declares.
    pub fn validate_in(&self, document: &Document) -> (outcome: Result<(), ContractError>)
        ensures
            match self.fault(document@) {
                None => outcome is Ok,
                Some(reason) => outcome is Err && outcome->Err_0.says(
                    ErrorKind::ValidationError,
                    reason,
                ),
            },
    {
        match document.get(&self.name) {
            Some(value) => self.validate(value),
            None => {
                let required = match self.required {
                    Some(r) => r,
                    None => false,
                };
                if required {
                    let mut text = self.name.clone();
                    text.append(" required");
                    Err(ContractError::ValidationError { reason: text })
                } else {
                    Ok(())
                }
            },
        }
    }

    /// Whether the property is mirrored into an index.
    pub fn has_index(&self) -> (yes: bool)
        ensures
            yes == self.is_indexed(),
    {
        match self.indexed {
            Some(flag) => flag,
            None => false,
        }
    }
}

/// The fault of the first property from `from` on that `document` fails.
pub open spec fn first_fault(properties: Seq<EntityProperty>, document: DocumentView, from: int)
    -> Option<Seq<char>>
    decreases properties.len() - from,
{
    if from < 0 || from >= properties.len() {
        None
    } else {
        match properties[from].fault(document) {
            Some(reason) => Some(reason),
            None => first_fault(properties, document, from + 1),
        }
    }
}

/// The first position at or after `from` of a property called `name`.
pub open spec fn property_from(properties: Seq<EntityProperty>, name: Seq<char>, from: int)
    -> Option<int>
    decreases properties.len() - from,
{
    if from < 0 || from >= properties.len() {
        None
    } else if properties[from].name@ == name {
        Some(from)
    } else {
        property_from(properties, name, from + 1)
    }
}

pub proof fn lemma_property_from(properties: Seq<EntityProperty>, name: Seq<char>, from: int)
    requires
        0 <= from,
    ensures
        match property_from(properties, name, from) {
            Some(i) => from <= i < properties.len() && properties[i].name@ == name,
            None => forall|j: int|
                from <= j < properties.len() ==> (#[trigger] properties[j]).name@ != name,
        },
    decreases properties.len() - from,
{
    if from < properties.len() && properties[from].name@ != name {
        lemma_property_from(properties, name, from + 1);
    }
}

pub proof fn lemma_first_fault(properties: Seq<EntityProperty>, document: DocumentView, from: int)
    requires
        0 <= from,
    ensures
        first_fault(properties, document, from) is None <==> forall|j: int|
            from <= j < properties.len() ==> (#[trigger] properties[j]).fault(document) is None,
    decreases properties.len() - from,
{
    if from < properties.len() {
        lemma_first_fault(properties, document, from + 1);
        if properties[from].fault(document) is None {
            assert forall|j: int| from <= j < properties.len() && first_fault(
                properties,
                document,
                from + 1,
            ) is None implies (#[trigger] properties[j]).fault(document) is None by {
                if j > from {
                }
            }
        }
    }
}

impl EntitySchema {
    /// No two properties share a name.
    pub open spec fn unique_names(&self) -> bool {
        forall|i: int, j: int|
            0 <= i < j < self.properties@.len() ==> (#[trigger] self.properties@[i]).name@ != (
            #[trigger] self.properties@[j]).name@
    }

    /// Where the property called `name` stands.
    pub open spec fn position(&self, name: Seq<char>) -> Option<int> {
        property_from(self.properties@, name, 0)
    }

    /// Why `document` is not valid for the schema, if it is not: it is no
    /// object, or else the fault of the first property that it fails.
    /// Members that the schema does not declare are free.
    pub open spec fn fault(&self, document: DocumentView) -> Option<Seq<char>> {
        if document is Object {
            first_fault(self.properties@, document, 0)
        } else {
            Some("updated entity is not an object"@)
        }
    }

    /// The kind of error that a document which is not valid gives: a
    /// document that is no object is unexpected, an object that fails a
    /// property is a validation error.
    pub open spec fn fault_kind(&self, document: DocumentView) -> ErrorKind {
        if document is Object {
            ErrorKind::ValidationError
        } else {
            ErrorKind::Unexpected
        }
    }

    /// `document` is valid: an object in which every declared property has
    /// a valid value or, unless required, none.
    pub open spec fn accepts(&self, document: DocumentView) -> bool {
        self.fault(document) is None
    }

    /// A valid document is an object that fails no property.
    pub proof fn lemma_accepts(&self, document: DocumentView)
        ensures
            self.accepts(document) <==> document is Object && forall|j: int|
                0 <= j < self.properties@.len() ==> (#[trigger] self.properties@[j]).fault(
                    document,
                ) is None,
    {
        lemma_first_fault(self.properties@, document, 0);
    }

    /// Looks a property up by name.
    pub fn find(&self, name: &String) -> (found: Option<usize>)
        ensures
            match found {
                Some(i) => self.position(name@) == Some(i as int) && i < self.properties@.len()
                    && self.properties@[i as int].name@ == name@,
                None => self.position(name@) is None,
            },
    {
        let mut i: usize = 0;
        while i < self.properties.len()
            invariant
                i <= self.properties@.len(),
                property_from(self.properties@, name@, 0) == property_from(
                    self.properties@,
                    name@,
                    i as int,
                ),
            decreases self.properties@.len() - i,
        {
            if self.properties[i].name == *name {
                return Some(i);
            }
            i = i + 1;
        }
        None
    }

    /// Whether no two properties share a name.
    pub fn has_unique_names(&self) -> (yes: bool)
        ensures
            yes == self.unique_names(),
    {
        let mut j: usize = 0;
        while j < self.properties.len()
            invariant
                j <= self.properties@.len(),
                forall|a: int, b: int|
                    0 <= a < b < j ==> (#[trigger] self.properties@[a]).name@ != (
                    #[trigger] self.properties@[b]).name@,
            decreases self.properties@.len() - j,
        {
            let mut i: usize = 0;
            while i < j
                invariant
                    i <= j < self.properties@.len(),
                    forall|a: int|
                        0 <= a < i ==> (#[trigger] self.properties@[a]).name@
                            != self.properties@[j as int].name@,
                decreases j - i,
            {
                if self.properties[i].name == self.properties[j].name {
                    return false;
                }
                i = i + 1;
            }
            j = j + 1;
        }
        true
    }

    /// Checks a whole document against the schema.
    pub fn validate(&self, document: &Document) -> (outcome: Result<(), ContractError>)
        ensures
            match self.fault(document@) {
                None => outcome is Ok,
                Some(reason) => outcome is Err && outcome->Err_0.says(
                    self.fault_kind(document@),
                    reason,
                ),
            },
    {
        if !document.is_object() {
            return Err(
                ContractError::Unexpected {
                    reason: String::from_str("updated entity is not an object"),
                },
            );
        }
        let mut i: usize = 0;
        while i < self.properties.len()
            invariant
                i <= self.properties@.len(),
                document@ is Object,
                first_fault(self.properties@, document@, 0) == first_fault(
                    self.properties@,
                    document@,
                    i as int,
                ),
            decreases self.properties@.len() - i,
        {
            match self.properties[i].validate_in(document) {
                Ok(()) => {},
                Err(error) => {
                    assert(self.properties@[i as int].fault(document@) is Some);
                    return Err(error);
                },
            }
            i = i + 1;
        }
        Ok(())
    }
}

impl EntityProperty {
    /// A copy of the property.
    pub fn duplicate(&self) -> (copy: EntityProperty)
        ensures
            copy == *self,
    {
        EntityProperty {
            indexed: self.indexed,
            required: self.required,
            value: self.value,
            name: self.name.clone(),
        }
    }
}

impl EntitySchema {
    /// Both have the same name and the same properties.
    pub open spec fn same(&self, other: EntitySchema) -> bool {
        self.name@ == other.name@ && self.properties@ == other.properties@
    }

    /// A copy with the same name and the same properties.
    pub fn duplicate(&self) -> (copy: EntitySchema)
        ensures
            copy.same(*self),
    {
        let mut properties: Vec<EntityProperty> = Vec::new();
        let mut i: usize = 0;
        while i < self.properties.len()
            invariant
                i <= self.properties@.len(),
                properties@ == self.properties@.take(i as int),
            decreases self.properties@.len() - i,
        {
            properties.push(self.properties[i].duplicate());
            assert(properties@ =~= self.properties@.take(i + 1));
            i = i + 1;
        }
        assert(self.properties@.take(i as int) =~= self.properties@);
        EntitySchema { name: self.name.clone(), properties }
    }
}

impl EntityPropertyParams {
    /// Whether `bytes` is a key that can be read back: the key of a
    /// boolean or of an integer. The key of a string, array or object
    /// does not say where its content ends.
    pub open spec fn decodable(self, bytes: Seq<u8>) -> bool {
        bytes.len() == self.width() && match self {
            EntityPropertyParams::Bool {  } => bytes[0] <= 1,
            _ => self.range() is Some,
        }
    }

    /// The number that the key of an integer property stands for.
    pub open spec fn decoded_number(self, bytes: Seq<u8>) -> int {
        be_value(bytes) + self.least()
    }

    /// The numbers of an integer type are as many as its width can tell
    /// apart.
    pub proof fn lemma_range_fits(self)
        requires
            self.range() is Some,
        ensures
            self.greatest() - self.least() + 1 == span(self.width()),
    {
        lemma_span_values();
    }

    /// The key of a valid value has the width of the property.
    pub proof fn lemma_encoding_width(self, value: DocumentView)
        requires
            self.check(value) is None,
        ensures
            self.encoding(value).len() == self.width(),
    {
        if self.range() is Some {
            lemma_be_bytes_len((self.number(value)->0 - self.least()) as nat, self.width());
        }
    }

    /// Keys order as numbers do: of two valid values of an integer
    /// property, one is the smaller number exactly when its key comes
    /// first, and the two are the same number exactly when the keys are
    /// equal.
    pub proof fn lemma_integer_keys_ordered(self, a: DocumentView, b: DocumentView)
        requires
            self.range() is Some,
            self.check(a) is None,
            self.check(b) is None,
        ensures
            self.number(a)->0 < self.number(b)->0 <==> lex_lt(self.encoding(a), self.encoding(b)),
            self.number(a) == self.number(b) <==> self.encoding(a) == self.encoding(b),
    {
        self.lemma_range_fits();
        lemma_be_bytes_monotone(
            (self.number(a)->0 - self.least()) as nat,
            (self.number(b)->0 - self.least()) as nat,
            self.width(),
        );
    }

    /// Reading an integer key back gives the number that was written.
    pub proof fn lemma_decode_inverts_encode(self, value: DocumentView)
        requires
            self.range() is Some,
            self.check(value) is None,
        ensures
            self.decodable(self.encoding(value)),
            self.decoded_number(self.encoding(value)) == self.number(value)->0,
    {
        self.lemma_range_fits();
        self.lemma_encoding_width(value);
        lemma_be_value_of_bytes((self.number(value)->0 - self.least()) as nat, self.width());
    }
}

impl EntityProperty {
    /// What `decode` returns: for a key that can be read back a valid
    /// value with that key (for an integer property, the number that
    /// the key stands for); for any other bytes an error.
    pub open spec fn decodes(&self, bytes: Seq<u8>, outcome: Result<Document, ContractError>)
        -> bool {
        if self.value.decodable(bytes) {
            &&& outcome is Ok
            &&& self.value.check(outcome->Ok_0@) is None
            &&& self.value.encoding(outcome->Ok_0@) == bytes
            &&& self.value.range() is Some ==> self.value.number(outcome->Ok_0@) == Some(
                self.value.decoded_number(bytes),
            )
        } else {
            outcome is Err && self.rejects(outcome->Err_0, Rule::NotDecodable)
        }
    }

    /// Reads a key back into a value: a boolean, an integer, or for the
    /// 128-bit types the decimal text of the integer.
    pub fn decode(&self, bytes: &Vec<u8>) -> (outcome: Result<Document, ContractError>)
        ensures
            self.decodes(bytes@, outcome),
    {
        if bytes.len() != self.value.key_width() {
            return Err(self.violation(Rule::NotDecodable));
        }
        proof {
            lemma_span_values();
            if self.value.range() is Some {
                lemma_be_bytes_of_value(bytes@);
            }
        }
        match self.value {
            EntityPropertyParams::String { .. } => Err(self.violation(Rule::NotDecodable)),
            EntityPropertyParams::Array { .. } => Err(self.violation(Rule::NotDecodable)),
            EntityPropertyParams::Object { .. } => Err(self.violation(Rule::NotDecodable)),
            EntityPropertyParams::Bool {  } => {
                if bytes[0] > 1 {
                    Err(self.violation(Rule::NotDecodable))
                } else {
                    let value = Document::Bool(bytes[0] == 1);
                    assert(self.value.encoding(value@) =~= bytes@);
                    Ok(value)
                }
            },
            EntityPropertyParams::U8 {  } => Ok(Document::Unsigned(be_decode(bytes) as u64)),
            EntityPropertyParams::U16 {  } => Ok(Document::Unsigned(be_decode(bytes) as u64)),
            EntityPropertyParams::U32 {  } => Ok(Document::Unsigned(be_decode(bytes) as u64)),
            EntityPropertyParams::U64 {  } => Ok(Document::Unsigned(be_decode(bytes) as u64)),
            EntityPropertyParams::I8 {  } => Ok(
                Document::Signed((be_decode(bytes) as i128 + i8::MIN as i128) as i64),
            ),
            EntityPropertyParams::I16 {  } => Ok(
                Document::Signed((be_decode(bytes) as i128 + i16::MIN as i128) as i64),
            ),
            EntityPropertyParams::I32 {  } => Ok(
                Document::Signed((be_decode(bytes) as i128 + i32::MIN as i128) as i64),
            ),
            EntityPropertyParams::I64 {  } => Ok(
                Document::Signed((be_decode(bytes) as i128 + i64::MIN as i128) as i64),
            ),
            EntityPropertyParams::U128 {  } => {
                let n = be_decode(bytes);
                proof {
                    lemma_decimal_round_trip(n as nat);
                }
                Ok(Document::String(decimal_text(n)))
            },
            EntityPropertyParams::I128 {  } => {
                let n = be_decode(bytes);
                if n >= 0x8000_0000_0000_0000_0000_0000_0000_0000u128 {
                    let magnitude = n - 0x8000_0000_0000_0000_0000_0000_0000_0000u128;
                    proof {
                        lemma_decimal_round_trip(magnitude as nat);
                    }
                    Ok(Document::String(decimal_text(magnitude)))
                } else {
                    let magnitude = 0x8000_0000_0000_0000_0000_0000_0000_0000u128 - n;
                    let text = String::from_str("-").concat(decimal_text(magnitude).as_str());
                    proof {
                        reveal_strlit("-");
                        lemma_decimal_round_trip(magnitude as nat);
                        assert(text@.skip(1) =~= decimal(magnitude as nat));
                        assert(text@[0] == '-');
                    }
                    Ok(Document::String(text))
                }
            },
        }
    }
}

impl EntityPropertyParams {
    /// Keys of strings, arrays and objects order as their contents do,
    /// byte by byte: where one key comes before another, so does its
    /// content, and no two contents come out in the opposite order.
    pub proof fn lemma_content_keys_ordered(self, a: DocumentView, b: DocumentView)
        requires
            self.capacity() is Some,
            self.check(a) is None,
            self.check(b) is None,
        ensures
            lex_lt(self.encoding(a), self.encoding(b)) ==> lex_lt(
                self.content(a)->0,
                self.content(b)->0,
            ),
            lex_lt(self.content(a)->0, self.content(b)->0) ==> !lex_lt(
                self.encoding(b),
                self.encoding(a),
            ),
    {
        lemma_padding_keeps_order(self.content(a)->0, self.content(b)->0, self.width());
    }
}

} // verus!
