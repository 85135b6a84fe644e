//! Argument tokens and the conversion of token text into typed values.

use vstd::prelude::*;
use vstd::string::StringSliceAdditionalSpecFns;
use vstd::string::StrSliceExecFns;
use vstd::utf8::*;
use crate::utils::same_text;

verus! {

/// One classified unit of input. The text borrows from the input buffer.
#[derive(Clone, Copy, Debug, PartialEq, Eq)]
pub enum Arg<'a> {
    /// The separator `--`.
    DoubleDash,
    /// A long option name, without its leading dashes.
    LongOption(&'a str),
    /// A short option name.
    ShortOption(char),
    /// A plain value.
    Value(&'a str),
}

/// The mathematical model of an [`Arg`].
pub enum Token {
    DoubleDash,
    LongOption(Seq<char>),
    ShortOption(char),
    Value(Seq<char>),
}

impl<'a> View for Arg<'a> {
    type V = Token;

    open spec fn view(&self) -> Token {
        match *self {
            Arg::DoubleDash => Token::DoubleDash,
            Arg::LongOption(name) => Token::LongOption(name@),
            Arg::ShortOption(name) => Token::ShortOption(name),
            Arg::Value(text) => Token::Value(text@),
        }
    }
}

/// The models of a sequence of tokens, in order.
pub open spec fn tokens_view(args: Seq<Arg<'_>>) -> Seq<Token> {
    args.map_values(|a: Arg| a@)
}

/// The type of a field, which selects how token text is converted.
#[derive(Clone, Copy, Debug, PartialEq, Eq, Structural)]
pub enum FieldType {
    /// `true` or `false`.
    Bool,
    /// Exactly one character.
    Char,
    /// A decimal number with an optional sign, in the range of `i64`.
    Signed,
    /// Any text, taken as it is.
    Text,
    /// A decimal number with an optional `+`, in the range of `u64`.
    Unsigned,
}

/// A typed value. Text borrows from where it was read.
#[derive(Clone, Copy, Debug, PartialEq, Eq)]
pub enum Value<'a> {
    Bool(bool),
    Char(char),
    Signed(i64),
    Text(&'a str),
    Unsigned(u64),
}

/// The mathematical model of a [`Value`].
pub enum ValueModel {
    Bool(bool),
    Char(char),
    Signed(int),
    Text(Seq<char>),
    Unsigned(nat),
}

impl<'a> View for Value<'a> {
    type V = ValueModel;

    open spec fn view(&self) -> ValueModel {
        match *self {
            Value::Bool(b) => ValueModel::Bool(b),
            Value::Char(c) => ValueModel::Char(c),
            Value::Signed(n) => ValueModel::Signed(n as int),
            Value::Text(text) => ValueModel::Text(text@),
            Value::Unsigned(n) => ValueModel::Unsigned(n as nat),
        }
    }
}

impl ValueModel {
    /// The field type that this value belongs to.
    pub open spec fn field_type(self) -> FieldType {
        match self {
            ValueModel::Bool(_) => FieldType::Bool,
            ValueModel::Char(_) => FieldType::Char,
            ValueModel::Signed(_) => FieldType::Signed,
            ValueModel::Text(_) => FieldType::Text,
            ValueModel::Unsigned(_) => FieldType::Unsigned,
        }
    }
}

/// The model of a value that may be absent.
pub open spec fn optional_value_view(v: Option<Value<'_>>) -> Option<ValueModel> {
    match v {
        None => None,
        Some(v) => Some(v@),
    }
}

/// A failed conversion: the text that was offered and the type that was
/// expected of it.
#[derive(Clone, Copy, Debug, PartialEq, Eq)]
pub struct FromArgumentError<'a> {
    pub value: &'a str,
    pub expected: FieldType,
}

/// The mathematical model of a [`FromArgumentError`].
pub struct FromArgumentErrorModel {
    pub value: Seq<char>,
    pub expected: FieldType,
}

impl<'a> View for FromArgumentError<'a> {
    type V = FromArgumentErrorModel;

    open spec fn view(&self) -> FromArgumentErrorModel {
        FromArgumentErrorModel { value: self.value@, expected: self.expected }
    }
}

/// Whether `c` is one of the ten decimal digits.
pub open spec fn is_digit(c: char) -> bool {
    '0' <= c && c <= '9'
}

/// The number that a decimal digit stands for; zero for any other character.
pub open spec fn digit_value(c: char) -> nat {
    if is_digit(c) {
        (c as u32 - '0' as u32) as nat
    } else {
        0
    }
}

/// Whether `digits` is a non-empty run of decimal digits.
pub open spec fn is_number(digits: Seq<char>) -> bool {
    digits.len() > 0 && forall|i: int| 0 <= i < digits.len() ==> is_digit(#[trigger] digits[i])
}

/// The number written by `digits` in base ten, most significant digit first.
pub open spec fn decimal_value(digits: Seq<char>) -> nat
    decreases digits.len(),
{
    if digits.len() == 0 {
        0
    } else {
        10 * decimal_value(digits.drop_last()) + digit_value(digits.last())
    }
}

/// `text` without one leading sign character, where `minus` says whether `-`
/// counts as a sign beside `+`.
pub open spec fn unsigned_part(text: Seq<char>, minus: bool) -> Seq<char> {
    if text.len() > 0 && (text[0] == '+' || (minus && text[0] == '-')) {
        text.skip(1)
    } else {
        text
    }
}

/// The unsigned number that `text` writes: an optional `+`, then digits, with
/// a value that fits in 64 bits.
pub open spec fn spec_parse_unsigned(text: Seq<char>) -> Option<nat> {
    let digits = unsigned_part(text, false);
    if is_number(digits) && decimal_value(digits) <= u64::MAX {
        Some(decimal_value(digits))
    } else {
        None
    }
}

/// The signed number that `text` writes: an optional `+` or `-`, then digits,
/// with a value in the range of `i64`.
pub open spec fn spec_parse_signed(text: Seq<char>) -> Option<int> {
    let digits = unsigned_part(text, true);
    let negative = text.len() > 0 && text[0] == '-';
    if !is_number(digits) {
        None
    } else if negative {
        if decimal_value(digits) <= -(i64::MIN as int) {
            Some(-(decimal_value(digits) as int))
        } else {
            None
        }
    } else {
        if decimal_value(digits) <= i64::MAX {
            Some(decimal_value(digits) as int)
        } else {
            None
        }
    }
}

/// The value of type `ty` that `text` converts to, if it converts.
pub open spec fn spec_from_arg(ty: FieldType, text: Seq<char>) -> Option<ValueModel> {
    match ty {
        FieldType::Bool => {
            if text == seq!['t', 'r', 'u', 'e'] {
                Some(ValueModel::Bool(true))
            } else if text == seq!['f', 'a', 'l', 's', 'e'] {
                Some(ValueModel::Bool(false))
            } else {
                None
            }
        },
        FieldType::Char => {
            if text.len() == 1 {
                Some(ValueModel::Char(text[0]))
            } else {
                None
            }
        },
        FieldType::Signed => match spec_parse_signed(text) {
            Some(n) => Some(ValueModel::Signed(n)),
            None => None,
        },
        FieldType::Text => Some(ValueModel::Text(text)),
        FieldType::Unsigned => match spec_parse_unsigned(text) {
            Some(n) => Some(ValueModel::Unsigned(n)),
            None => None,
        },
    }
}

/// What a conversion of `text` to `ty` gives: the value, or the error that
/// names the text and the type.
pub open spec fn spec_convert(ty: FieldType, text: Seq<char>) -> Result<
    ValueModel,
    FromArgumentErrorModel,
> {
    match spec_from_arg(ty, text) {
        Some(v) => Ok(v),
        None => Err(FromArgumentErrorModel { value: text, expected: ty }),
    }
}

/// The model of the outcome of a conversion.
pub open spec fn conversion_view(r: Result<Value<'_>, FromArgumentError<'_>>) -> Result<
    ValueModel,
    FromArgumentErrorModel,
> {
    match r {
        Ok(v) => Ok(v@),
        Err(e) => Err(e@),
    }
}

/// A longer run of characters writes a number at least as large as any of
/// its prefixes.
proof fn lemma_decimal_value_prefix(digits: Seq<char>, k: int)
    requires
        0 <= k <= digits.len(),
    ensures
        decimal_value(digits.take(k)) <= decimal_value(digits),
    decreases digits.len() - k,
{
    if k == digits.len() {
        assert(digits.take(k) =~= digits);
    } else {
        lemma_decimal_value_prefix(digits.drop_last(), k);
        assert(digits.drop_last().take(k) =~= digits.take(k));
    }
}

/// The number written by the digits of `text` from `start` on, if they are
/// digits and the number fits in 64 bits.
fn parse_magnitude(text: &str, start: usize) -> (r: Option<u64>)
    requires
        is_ascii_chars(text@),
        start <= text@.len(),
    ensures
        r is Some <==> is_number(text@.skip(start as int)) && decimal_value(
            text@.skip(start as int),
        ) <= u64::MAX,
        r matches Some(n) ==> n == decimal_value(text@.skip(start as int)),
{
    let bytes = text.as_bytes();
    let ghost digits = text@.skip(start as int);
    proof {
        vstd::string::is_ascii_spec_bytes(text);
    }
    if start == bytes.len() {
        return None;
    }
    let mut acc: u64 = 0;
    let mut i: usize = start;
    while i < bytes.len()
        invariant
            start <= i <= bytes@.len(),
            bytes@.len() == text@.len(),
            is_ascii_chars(text@),
            forall|j: int| 0 <= j < bytes@.len() ==> bytes@[j] == text@[j] as u8,
            digits == text@.skip(start as int),
            acc == decimal_value(digits.take(i - start)),
            forall|j: int| 0 <= j < i - start ==> is_digit(#[trigger] digits[j]),
        decreases bytes@.len() - i,
    {
        let b = bytes[i];
        let ghost c = text@[i as int];
        assert(c == digits[i - start]);
        assert(b == c as u8);
        if b < 0x30 || b > 0x39 {
            assert(!is_digit(c));
            return None;
        }
        assert(is_digit(c));
        let d: u64 = (b - 0x30) as u64;
        assert(d == digit_value(c));
        proof {
            let next = digits.take(i - start + 1);
            assert(next.drop_last() =~= digits.take(i - start));
            assert(next.last() == c);
            assert(decimal_value(next) == 10 * acc + d);
            lemma_decimal_value_prefix(digits, i - start + 1);
        }
        if acc > (u64::MAX - d) / 10 {
            return None;
        }
        acc = acc * 10 + d;
        i = i + 1;
    }
    assert(digits.take(i - start) =~= digits);
    Some(acc)
}

/// Converts the text of one token into a value of the field type `ty`.
///
/// Failure hands back the text together with the expected type.
pub fn from_arg<'a>(ty: FieldType, arg: &'a str) -> (r: Result<Value<'a>, FromArgumentError<'a>>)
    ensures
        conversion_view(r) == spec_convert(ty, arg@),
{
    let failed = Err(FromArgumentError { value: arg, expected: ty });
    match ty {
        FieldType::Bool => {
            proof {
                reveal_strlit("true");
                reveal_strlit("false");
                assert("true"@ =~= seq!['t', 'r', 'u', 'e']);
                assert("false"@ =~= seq!['f', 'a', 'l', 's', 'e']);
            }
            if same_text(arg, "true") {
                Ok(Value::Bool(true))
            } else if same_text(arg, "false") {
                Ok(Value::Bool(false))
            } else {
                failed
            }
        },
        FieldType::Char => {
            if arg.unicode_len() == 1 {
                Ok(Value::Char(arg.get_char(0)))
            } else {
                failed
            }
        },
        FieldType::Signed => {
            if !arg.is_ascii() {
                proof {
                    lemma_number_is_ascii(arg@, true);
                }
                return failed;
            }
            let bytes = arg.as_bytes();
            proof {
                vstd::string::is_ascii_spec_bytes(arg);
            }
            let negative = bytes.len() > 0 && bytes[0] == 0x2d;
            let signed = bytes.len() > 0 && (bytes[0] == 0x2b || bytes[0] == 0x2d);
            proof {
                if bytes@.len() > 0 {
                    assert(bytes@[0] == arg@[0] as u8);
                }
            }
            let start: usize = if signed { 1 } else { 0 };
            assert(arg@.skip(start as int) =~= unsigned_part(arg@, true));
            match parse_magnitude(arg, start) {
                None => failed,
                Some(n) => {
                    if negative {
                        if n <= 0x7fff_ffff_ffff_ffff {
                            Ok(Value::Signed(-(n as i64)))
                        } else if n == 0x8000_0000_0000_0000 {
                            Ok(Value::Signed(i64::MIN))
                        } else {
                            failed
                        }
                    } else if n <= 0x7fff_ffff_ffff_ffff {
                        Ok(Value::Signed(n as i64))
                    } else {
                        failed
                    }
                },
            }
        },
        FieldType::Text => Ok(Value::Text(arg)),
        FieldType::Unsigned => {
            if !arg.is_ascii() {
                proof {
                    lemma_number_is_ascii(arg@, false);
                }
                return failed;
            }
            let bytes = arg.as_bytes();
            proof {
                vstd::string::is_ascii_spec_bytes(arg);
            }
            let signed = bytes.len() > 0 && bytes[0] == 0x2b;
            proof {
                if bytes@.len() > 0 {
                    assert(bytes@[0] == arg@[0] as u8);
                }
            }
            let start: usize = if signed { 1 } else { 0 };
            assert(arg@.skip(start as int) =~= unsigned_part(arg@, false));
            match parse_magnitude(arg, start) {
                None => failed,
                Some(n) => Ok(Value::Unsigned(n)),
            }
        },
    }
}

/// Text that writes a number holds ASCII characters only.
proof fn lemma_number_is_ascii(text: Seq<char>, minus: bool)
    ensures
        is_number(unsigned_part(text, minus)) ==> is_ascii_chars(text),
{
    let digits = unsigned_part(text, minus);
    if is_number(digits) {
        assert forall|i: int| 0 <= i < text.len() implies '\0' <= #[trigger] text[i]
            <= '\u{7f}' by {
            if digits.len() == text.len() {
                assert(is_digit(digits[i]));
            } else if i > 0 {
                assert(is_digit(digits[i - 1]));
            }
        }
    }
}

} // verus!
