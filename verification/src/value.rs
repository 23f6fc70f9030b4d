//! Column types, typed values, and how a value is read from and written to a
//! field of the text form.

use crate::label::Label;
use crate::text::{
    check_real_literal, decimal_text, hash_text, hash_value, is_real_literal,
    lemma_decimal_text_value, lemma_hash_text_value, lemma_percent_text_value,
    lemma_signed_text_value, parse_hash, parse_percent, parse_signed, parse_unsigned,
    percent_text, percent_value, render_signed, render_unsigned, signed_text, signed_value,
    unsigned_value,
};
use vstd::prelude::*;

verus! {

/// The type of the values of a column.
#[derive(Debug, Clone, Copy, PartialEq, Eq, Structural, Hash)]
pub enum ValueType {
    Unknown,
    UnsignedByte,
    UnsignedShort,
    UnsignedInt,
    SignedByte,
    SignedShort,
    SignedInt,
    String,
    Float,
    HashRef,
    Percent,
    DebugString,
    Unknown2,
    Unknown3,
}

impl ValueType {
    /// The number by which the binary format knows the type.
    pub open spec fn spec_code(self) -> u8 {
        match self {
            ValueType::Unknown => 0,
            ValueType::UnsignedByte => 1,
            ValueType::UnsignedShort => 2,
            ValueType::UnsignedInt => 3,
            ValueType::SignedByte => 4,
            ValueType::SignedShort => 5,
            ValueType::SignedInt => 6,
            ValueType::String => 7,
            ValueType::Float => 8,
            ValueType::HashRef => 9,
            ValueType::Percent => 10,
            ValueType::DebugString => 11,
            ValueType::Unknown2 => 12,
            ValueType::Unknown3 => 13,
        }
    }

    /// The name of the type, as it is shown in messages.
    pub open spec fn spec_name(self) -> Seq<char> {
        value_type_name(self.spec_code())
    }

    /// The number by which the binary format knows the type.
    #[verifier::when_used_as_spec(spec_code)]
    pub fn code(self) -> (code: u8)
        ensures
            code == self.spec_code(),
            code <= 13,
    {
        match self {
            ValueType::Unknown => 0,
            ValueType::UnsignedByte => 1,
            ValueType::UnsignedShort => 2,
            ValueType::UnsignedInt => 3,
            ValueType::SignedByte => 4,
            ValueType::SignedShort => 5,
            ValueType::SignedInt => 6,
            ValueType::String => 7,
            ValueType::Float => 8,
            ValueType::HashRef => 9,
            ValueType::Percent => 10,
            ValueType::DebugString => 11,
            ValueType::Unknown2 => 12,
            ValueType::Unknown3 => 13,
        }
    }

    /// The type that the binary format knows by `code`, if there is one.
    pub fn from_code(code: u8) -> (value_type: Option<ValueType>)
        ensures
            match value_type {
                Some(t) => t.spec_code() == code,
                None => code > 13,
            },
    {
        match code {
            0 => Some(ValueType::Unknown),
            1 => Some(ValueType::UnsignedByte),
            2 => Some(ValueType::UnsignedShort),
            3 => Some(ValueType::UnsignedInt),
            4 => Some(ValueType::SignedByte),
            5 => Some(ValueType::SignedShort),
            6 => Some(ValueType::SignedInt),
            7 => Some(ValueType::String),
            8 => Some(ValueType::Float),
            9 => Some(ValueType::HashRef),
            10 => Some(ValueType::Percent),
            11 => Some(ValueType::DebugString),
            12 => Some(ValueType::Unknown2),
            13 => Some(ValueType::Unknown3),
            _ => None,
        }
    }

    /// The name of the type, as it is shown in messages.
    pub fn name(self) -> (name: String)
        ensures
            name@ == self.spec_name(),
    {
        debug_value_type(self.code())
    }
}

/// The name that `code` has as a value type.
pub open spec fn value_type_name(code: u8) -> Seq<char> {
    if code == 0 {
        "Unknown"@
    } else if code == 1 {
        "UnsignedByte"@
    } else if code == 2 {
        "UnsignedShort"@
    } else if code == 3 {
        "UnsignedInt"@
    } else if code == 4 {
        "SignedByte"@
    } else if code == 5 {
        "SignedShort"@
    } else if code == 6 {
        "SignedInt"@
    } else if code == 7 {
        "String"@
    } else if code == 8 {
        "Float"@
    } else if code == 9 {
        "HashRef"@
    } else if code == 10 {
        "Percent"@
    } else if code == 11 {
        "DebugString"@
    } else if code == 12 {
        "Unknown2"@
    } else {
        "Unknown3"@
    }
}

/// Formats the `bdat::ValueType` with the number `code` by its `Debug` impl,
/// which is derived: it writes the name of the variant. The variants are
/// numbered from 0 in the order of their declaration, and `try_from` fails on
/// no number up to 13.
#[verifier::external_body]
fn debug_value_type(code: u8) -> (name: String)
    requires
        code <= 13,
    ensures
        name@ == value_type_name(code),
{
    format!("{:?}", bdat::ValueType::try_from(code).unwrap())
}

/// A typed value of a table.
#[derive(Debug, PartialEq, Eq)]
pub enum Value {
    Unknown,
    UnsignedByte(u8),
    UnsignedShort(u16),
    UnsignedInt(u32),
    SignedByte(i8),
    SignedShort(i16),
    SignedInt(i32),
    String(String),
    /// A real number, held as the literal that spells it. The binary format
    /// stores reals in a way that depends on its version, so the number is
    /// computed where the table is encoded.
    Float(String),
    /// The hash of a row, in this table or another.
    HashRef(u32),
    Percent(u8),
    DebugString(String),
    Unknown2(u8),
    Unknown3(u16),
}

/// What a [`Value`] stands for in contracts.
pub enum ValueView {
    Unknown,
    UnsignedByte(u8),
    UnsignedShort(u16),
    UnsignedInt(u32),
    SignedByte(i8),
    SignedShort(i16),
    SignedInt(i32),
    String(Seq<char>),
    Float(Seq<char>),
    HashRef(u32),
    Percent(u8),
    DebugString(Seq<char>),
    Unknown2(u8),
    Unknown3(u16),
}

impl View for Value {
    type V = ValueView;

    open spec fn view(&self) -> ValueView {
        match self {
            Value::Unknown => ValueView::Unknown,
            Value::UnsignedByte(n) => ValueView::UnsignedByte(*n),
            Value::UnsignedShort(n) => ValueView::UnsignedShort(*n),
            Value::UnsignedInt(n) => ValueView::UnsignedInt(*n),
            Value::SignedByte(n) => ValueView::SignedByte(*n),
            Value::SignedShort(n) => ValueView::SignedShort(*n),
            Value::SignedInt(n) => ValueView::SignedInt(*n),
            Value::String(s) => ValueView::String(s@),
            Value::Float(s) => ValueView::Float(s@),
            Value::HashRef(hash) => ValueView::HashRef(*hash),
            Value::Percent(n) => ValueView::Percent(*n),
            Value::DebugString(s) => ValueView::DebugString(s@),
            Value::Unknown2(n) => ValueView::Unknown2(*n),
            Value::Unknown3(n) => ValueView::Unknown3(*n),
        }
    }
}

impl DeepView for Value {
    type V = ValueView;

    open spec fn deep_view(&self) -> ValueView {
        self@
    }
}

impl ValueView {
    /// The type of the value.
    pub open spec fn value_type(self) -> ValueType {
        match self {
            ValueView::Unknown => ValueType::Unknown,
            ValueView::UnsignedByte(_) => ValueType::UnsignedByte,
            ValueView::UnsignedShort(_) => ValueType::UnsignedShort,
            ValueView::UnsignedInt(_) => ValueType::UnsignedInt,
            ValueView::SignedByte(_) => ValueType::SignedByte,
            ValueView::SignedShort(_) => ValueType::SignedShort,
            ValueView::SignedInt(_) => ValueType::SignedInt,
            ValueView::String(_) => ValueType::String,
            ValueView::Float(_) => ValueType::Float,
            ValueView::HashRef(_) => ValueType::HashRef,
            ValueView::Percent(_) => ValueType::Percent,
            ValueView::DebugString(_) => ValueType::DebugString,
            ValueView::Unknown2(_) => ValueType::Unknown2,
            ValueView::Unknown3(_) => ValueType::Unknown3,
        }
    }

    /// Whether the value is one that a field can hold: a real is a real
    /// literal.
    pub open spec fn well_formed(self) -> bool {
        self matches ValueView::Float(s) ==> is_real_literal(s)
    }

    /// The field that holds the value in the text form.
    pub open spec fn text(self) -> Seq<char> {
        match self {
            ValueView::Unknown => Seq::empty(),
            ValueView::UnsignedByte(n) => decimal_text(n as nat),
            ValueView::UnsignedShort(n) => decimal_text(n as nat),
            ValueView::UnsignedInt(n) => decimal_text(n as nat),
            ValueView::SignedByte(n) => signed_text(n as int),
            ValueView::SignedShort(n) => signed_text(n as int),
            ValueView::SignedInt(n) => signed_text(n as int),
            ValueView::String(s) => s,
            ValueView::Float(s) => s,
            ValueView::HashRef(hash) => hash_text(hash),
            ValueView::Percent(n) => percent_text(n as nat),
            ValueView::DebugString(s) => s,
            ValueView::Unknown2(n) => decimal_text(n as nat),
            ValueView::Unknown3(n) => decimal_text(n as nat),
        }
    }
}

/// The value of type `value_type` that the field `text` holds, if it holds one.
///
/// A field of unknown type is empty. An unsigned number is one or more decimal
/// digits; a signed one may have a `-` before them; either lies in the range
/// of its type. A string is any text. A real is a real literal. A hash
/// reference is eight hexadecimal digits between angle brackets, or up to
/// eight without them. A percentage is an unsigned byte, with or without a
/// `%` behind it.
pub open spec fn coerced(text: Seq<char>, value_type: ValueType) -> Option<ValueView> {
    match value_type {
        ValueType::Unknown => if text.len() == 0 {
            Some(ValueView::Unknown)
        } else {
            None
        },
        ValueType::UnsignedByte => match unsigned_value(text, 0xff) {
            Some(n) => Some(ValueView::UnsignedByte(n as u8)),
            None => None,
        },
        ValueType::UnsignedShort => match unsigned_value(text, 0xffff) {
            Some(n) => Some(ValueView::UnsignedShort(n as u16)),
            None => None,
        },
        ValueType::UnsignedInt => match unsigned_value(text, 0xffff_ffff) {
            Some(n) => Some(ValueView::UnsignedInt(n as u32)),
            None => None,
        },
        ValueType::SignedByte => match signed_value(text, -0x80, 0x7f) {
            Some(n) => Some(ValueView::SignedByte(n as i8)),
            None => None,
        },
        ValueType::SignedShort => match signed_value(text, -0x8000, 0x7fff) {
            Some(n) => Some(ValueView::SignedShort(n as i16)),
            None => None,
        },
        ValueType::SignedInt => match signed_value(text, -0x8000_0000, 0x7fff_ffff) {
            Some(n) => Some(ValueView::SignedInt(n as i32)),
            None => None,
        },
        ValueType::String => Some(ValueView::String(text)),
        ValueType::Float => if is_real_literal(text) {
            Some(ValueView::Float(text))
        } else {
            None
        },
        ValueType::HashRef => match hash_value(text) {
            Some(hash) => Some(ValueView::HashRef(hash)),
            None => None,
        },
        ValueType::Percent => match percent_value(text) {
            Some(n) => Some(ValueView::Percent(n as u8)),
            None => None,
        },
        ValueType::DebugString => Some(ValueView::DebugString(text)),
        ValueType::Unknown2 => match unsigned_value(text, 0xff) {
            Some(n) => Some(ValueView::Unknown2(n as u8)),
            None => None,
        },
        ValueType::Unknown3 => match unsigned_value(text, 0xffff) {
            Some(n) => Some(ValueView::Unknown3(n as u16)),
            None => None,
        },
    }
}

/// Reading a field yields a value of the type that was asked for, and one that
/// a field can hold.
pub proof fn lemma_coerced_type(text: Seq<char>, value_type: ValueType)
    ensures
        coerced(text, value_type) matches Some(value) ==> value.value_type() == value_type
            && value.well_formed(),
{
}

/// The field that is written for a value reads back as that value.
pub proof fn lemma_text_round_trip(value: ValueView)
    requires
        value.well_formed(),
    ensures
        coerced(value.text(), value.value_type()) == Some(value),
{
    match value {
        ValueView::Unknown => {},
        ValueView::UnsignedByte(n) => {
            lemma_decimal_text_value(n as nat);
        },
        ValueView::UnsignedShort(n) => {
            lemma_decimal_text_value(n as nat);
        },
        ValueView::UnsignedInt(n) => {
            lemma_decimal_text_value(n as nat);
        },
        ValueView::SignedByte(n) => {
            lemma_signed_text_value(n as int, -0x80, 0x7f);
        },
        ValueView::SignedShort(n) => {
            lemma_signed_text_value(n as int, -0x8000, 0x7fff);
        },
        ValueView::SignedInt(n) => {
            lemma_signed_text_value(n as int, -0x8000_0000, 0x7fff_ffff);
        },
        ValueView::String(_) => {},
        ValueView::Float(_) => {},
        ValueView::HashRef(hash) => {
            lemma_hash_text_value(hash);
        },
        ValueView::Percent(n) => {
            lemma_percent_text_value(n as nat);
        },
        ValueView::DebugString(_) => {},
        ValueView::Unknown2(n) => {
            lemma_decimal_text_value(n as nat);
        },
        ValueView::Unknown3(n) => {
            lemma_decimal_text_value(n as nat);
        },
    }
}

impl Value {
    /// The type of the value.
    pub fn value_type(&self) -> (value_type: ValueType)
        ensures
            value_type == self@.value_type(),
    {
        match self {
            Value::Unknown => ValueType::Unknown,
            Value::UnsignedByte(_) => ValueType::UnsignedByte,
            Value::UnsignedShort(_) => ValueType::UnsignedShort,
            Value::UnsignedInt(_) => ValueType::UnsignedInt,
            Value::SignedByte(_) => ValueType::SignedByte,
            Value::SignedShort(_) => ValueType::SignedShort,
            Value::SignedInt(_) => ValueType::SignedInt,
            Value::String(_) => ValueType::String,
            Value::Float(_) => ValueType::Float,
            Value::HashRef(_) => ValueType::HashRef,
            Value::Percent(_) => ValueType::Percent,
            Value::DebugString(_) => ValueType::DebugString,
            Value::Unknown2(_) => ValueType::Unknown2,
            Value::Unknown3(_) => ValueType::Unknown3,
        }
    }

    /// Reads the field `text` as a value of type `value_type`. Returns `None`
    /// where the field holds no value of that type.
    pub fn coerce(text: &str, value_type: ValueType) -> (value: Option<Value>)
        ensures
            match value {
                Some(v) => coerced(text@, value_type) == Some(v@),
                None => coerced(text@, value_type) is None,
            },
    {
        match value_type {
            ValueType::Unknown => if text.is_empty() {
                Some(Value::Unknown)
            } else {
                None
            },
            ValueType::UnsignedByte => match parse_unsigned(text, 0xff) {
                Some(n) => Some(Value::UnsignedByte(n as u8)),
                None => None,
            },
            ValueType::UnsignedShort => match parse_unsigned(text, 0xffff) {
                Some(n) => Some(Value::UnsignedShort(n as u16)),
                None => None,
            },
            ValueType::UnsignedInt => match parse_unsigned(text, 0xffff_ffff) {
                Some(n) => Some(Value::UnsignedInt(n as u32)),
                None => None,
            },
            ValueType::SignedByte => match parse_signed(text, 0x80, 0x7f) {
                Some(n) => Some(Value::SignedByte(n as i8)),
                None => None,
            },
            ValueType::SignedShort => match parse_signed(text, 0x8000, 0x7fff) {
                Some(n) => Some(Value::SignedShort(n as i16)),
                None => None,
            },
            ValueType::SignedInt => match parse_signed(text, 0x8000_0000, 0x7fff_ffff) {
                Some(n) => Some(Value::SignedInt(n as i32)),
                None => None,
            },
            ValueType::String => Some(Value::String(String::from_str(text))),
            ValueType::Float => if check_real_literal(text) {
                Some(Value::Float(String::from_str(text)))
            } else {
                None
            },
            ValueType::HashRef => match parse_hash(text) {
                Some(hash) => Some(Value::HashRef(hash)),
                None => None,
            },
            ValueType::Percent => match parse_percent(text) {
                Some(n) => Some(Value::Percent(n)),
                None => None,
            },
            ValueType::DebugString => Some(Value::DebugString(String::from_str(text))),
            ValueType::Unknown2 => match parse_unsigned(text, 0xff) {
                Some(n) => Some(Value::Unknown2(n as u8)),
                None => None,
            },
            ValueType::Unknown3 => match parse_unsigned(text, 0xffff) {
                Some(n) => Some(Value::Unknown3(n as u16)),
                None => None,
            },
        }
    }

    /// Writes the field that holds the value in the text form.
    pub fn to_text(&self) -> (text: String)
        ensures
            text@ == self@.text(),
    {
        match self {
            Value::Unknown => String::new(),
            Value::UnsignedByte(n) => render_unsigned(*n as u64),
            Value::UnsignedShort(n) => render_unsigned(*n as u64),
            Value::UnsignedInt(n) => render_unsigned(*n as u64),
            Value::SignedByte(n) => render_signed(*n as i64),
            Value::SignedShort(n) => render_signed(*n as i64),
            Value::SignedInt(n) => render_signed(*n as i64),
            Value::String(s) => s.clone(),
            Value::Float(s) => s.clone(),
            Value::HashRef(hash) => Label::Hash(*hash).text(),
            Value::Percent(n) => {
                proof {
                    reveal_strlit("%");
                }
                let mut text = render_unsigned(*n as u64);
                text.append("%");
                assert(text@ =~= percent_text(*n as nat));
                text
            },
            Value::DebugString(s) => s.clone(),
            Value::Unknown2(n) => render_unsigned(*n as u64),
            Value::Unknown3(n) => render_unsigned(*n as u64),
        }
    }
}

impl Clone for Value {
    fn clone(&self) -> (copy: Self)
        ensures
            copy@ == self@,
    {
        match self {
            Value::Unknown => Value::Unknown,
            Value::UnsignedByte(n) => Value::UnsignedByte(*n),
            Value::UnsignedShort(n) => Value::UnsignedShort(*n),
            Value::UnsignedInt(n) => Value::UnsignedInt(*n),
            Value::SignedByte(n) => Value::SignedByte(*n),
            Value::SignedShort(n) => Value::SignedShort(*n),
            Value::SignedInt(n) => Value::SignedInt(*n),
            Value::String(s) => Value::String(s.clone()),
            Value::Float(s) => Value::Float(s.clone()),
            Value::HashRef(hash) => Value::HashRef(*hash),
            Value::Percent(n) => Value::Percent(*n),
            Value::DebugString(s) => Value::DebugString(s.clone()),
            Value::Unknown2(n) => Value::Unknown2(*n),
            Value::Unknown3(n) => Value::Unknown3(*n),
        }
    }
}

} // verus!
