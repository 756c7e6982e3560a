//! Declared parameter types, the values that parameters are bound to, and the
//! coercion of text into a value.

use crate::text::{parse_signed, parse_unsigned, read_signed, read_unsigned, same_text};
use vstd::prelude::*;

verus! {

/// What a parameter's text is read as.
#[derive(Clone, Copy, Debug, PartialEq, Eq, Structural)]
pub enum BaseType {
    /// Any text.
    Text,
    /// `true` or `false`.
    Bool,
    /// A number from 0 to 255.
    U8,
    /// A number from 0 to 2^64 - 1.
    U64,
    /// A number from -2^31 to 2^31 - 1.
    I32,
    /// A number from -2^63 to 2^63 - 1.
    I64,
    /// The text as it was received, before any decoding.
    Raw,
}

/// What becomes of a parameter whose text cannot be read as its base type.
#[derive(Clone, Copy, Debug, PartialEq, Eq, Structural)]
pub enum Mode {
    /// The candidate route does not apply.
    Strict,
    /// The parameter is bound to the empty value.
    Optional,
    /// The parameter is bound to the text as it was received.
    Fallible,
}

/// The declared type of a path parameter.
#[derive(Clone, Copy, Debug, PartialEq, Eq, Structural)]
pub struct ParamType {
    pub base: BaseType,
    pub mode: Mode,
}

/// A value that a parameter was bound to.
#[derive(Clone, Debug, PartialEq, Eq)]
pub enum Value {
    Text(String),
    Bool(bool),
    Int(i64),
    UInt(u64),
    /// No value: an optional parameter that was absent or unreadable.
    Empty,
    /// The text, as received, that a fallible parameter could not be read from.
    Rejected(String),
}

/// The mathematical model of a [`Value`].
pub enum ValueView {
    Text(Seq<char>),
    Bool(bool),
    Int(i64),
    UInt(u64),
    Empty,
    Rejected(Seq<char>),
}

impl DeepView for Value {
    type V = ValueView;

    open spec fn deep_view(&self) -> ValueView {
        match *self {
            Value::Text(t) => ValueView::Text(t@),
            Value::Bool(b) => ValueView::Bool(b),
            Value::Int(v) => ValueView::Int(v),
            Value::UInt(v) => ValueView::UInt(v),
            Value::Empty => ValueView::Empty,
            Value::Rejected(t) => ValueView::Rejected(t@),
        }
    }
}

impl View for Value {
    type V = ValueView;

    open spec fn view(&self) -> ValueView {
        self.deep_view()
    }
}

impl ParamType {
    pub fn new(base: BaseType, mode: Mode) -> (ty: ParamType)
        ensures
            ty.base == base,
            ty.mode == mode,
    {
        ParamType { base, mode }
    }

    /// Whether a parameter of this type is bound whatever its text holds.
    pub open spec fn tolerant(self) -> bool {
        self.mode != Mode::Strict
    }

    pub fn is_tolerant(&self) -> (t: bool)
        ensures
            t == self.tolerant(),
    {
        match self.mode {
            Mode::Strict => false,
            Mode::Optional => true,
            Mode::Fallible => true,
        }
    }
}

/// The value that `text` denotes when read as `base`, if it denotes one.
pub open spec fn coerced(base: BaseType, text: Seq<char>) -> Option<ValueView> {
    match base {
        BaseType::Text => Some(ValueView::Text(text)),
        BaseType::Bool => if text == "true"@ {
            Some(ValueView::Bool(true))
        } else if text == "false"@ {
            Some(ValueView::Bool(false))
        } else {
            None
        },
        BaseType::U8 => match parse_unsigned(text, 0xff) {
            Some(v) => Some(ValueView::UInt(v as u64)),
            None => None,
        },
        BaseType::U64 => match parse_unsigned(text, 0xffff_ffff_ffff_ffff) {
            Some(v) => Some(ValueView::UInt(v as u64)),
            None => None,
        },
        BaseType::I32 => match parse_signed(text, -0x8000_0000, 0x7fff_ffff) {
            Some(v) => Some(ValueView::Int(v as i64)),
            None => None,
        },
        BaseType::I64 => match parse_signed(text, -0x8000_0000_0000_0000, 0x7fff_ffff_ffff_ffff) {
            Some(v) => Some(ValueView::Int(v as i64)),
            None => None,
        },
        BaseType::Raw => Some(ValueView::Text(text)),
    }
}

/// Reads `text` as a value of type `base`.
pub fn coerce(base: BaseType, text: &str) -> (value: Option<Value>)
    ensures
        value.deep_view() == coerced(base, text@),
{
    match base {
        BaseType::Text => Some(Value::Text(text.to_owned())),
        BaseType::Bool => {
            if same_text(text, "true") {
                Some(Value::Bool(true))
            } else if same_text(text, "false") {
                Some(Value::Bool(false))
            } else {
                None
            }
        },
        BaseType::U8 => match read_unsigned(text, 0xff) {
            Some(v) => Some(Value::UInt(v)),
            None => None,
        },
        BaseType::U64 => match read_unsigned(text, 0xffff_ffff_ffff_ffff) {
            Some(v) => Some(Value::UInt(v)),
            None => None,
        },
        BaseType::I32 => match read_signed(text, -0x8000_0000, 0x7fff_ffff) {
            Some(v) => Some(Value::Int(v)),
            None => None,
        },
        BaseType::I64 => match read_signed(text, -0x8000_0000_0000_0000, 0x7fff_ffff_ffff_ffff) {
            Some(v) => Some(Value::Int(v)),
            None => None,
        },
        BaseType::Raw => Some(Value::Text(text.to_owned())),
    }
}

} // verus!
