//! Numeric operands: literal conversion and the 8- and 16-bit immediates.

use vstd::prelude::*;
use crate::error_handler::{CompilerError, ErrorCode};
use crate::lexer::{TokenType, chars_of};
use crate::parser::Parser;
use crate::compiler::Compiler;

verus! {

/// `s` without its `_` separators.
pub open spec fn strip_separators(s: Seq<char>) -> Seq<char>
    decreases s.len(),
{
    if s.len() == 0 {
        s
    } else if s.last() == '_' {
        strip_separators(s.drop_last())
    } else {
        strip_separators(s.drop_last()).push(s.last())
    }
}

/// The value of digit `c` in base `radix`, if it is one.
pub open spec fn digit_value(c: char, radix: nat) -> Option<nat> {
    if '0' <= c <= '9' && (c as int) - ('0' as int) < radix {
        Some(((c as int) - ('0' as int)) as nat)
    } else if radix == 16 && 'a' <= c <= 'f' {
        Some(((c as int) - ('a' as int) + 10) as nat)
    } else if radix == 16 && 'A' <= c <= 'F' {
        Some(((c as int) - ('A' as int) + 10) as nat)
    } else {
        None
    }
}

/// Every character of `s` is a digit in base `radix`.
pub open spec fn all_digits(s: Seq<char>, radix: nat) -> bool {
    forall|i: int| 0 <= i < s.len() ==> (#[trigger] digit_value(s[i], radix)) is Some
}

/// The value of a run of digits, most significant first.
pub open spec fn digits_value(s: Seq<char>, radix: nat) -> nat
    decreases s.len(),
{
    if s.len() == 0 {
        0
    } else {
        digits_value(s.drop_last(), radix) * radix + digit_value(s.last(), radix).unwrap_or(0)
    }
}

/// The base that a literal's prefix selects, and where its digits start.
pub open spec fn radix_of(s: Seq<char>) -> (nat, int) {
    if s.len() >= 2 && s[0] == '0' && (s[1] == 'x' || s[1] == 'X') {
        (16, 2)
    } else if s.len() >= 2 && s[0] == '0' && (s[1] == 'b' || s[1] == 'B') {
        (2, 2)
    } else {
        (10, 0)
    }
}

/// The value of a number literal's text: `_` separators dropped, then a
/// `0x` or `0b` prefix selects hexadecimal or binary. `None` when no digits
/// remain or one is not a digit of the base.
pub open spec fn literal_value(text: Seq<char>) -> Option<int> {
    let s = strip_separators(text);
    let (radix, from) = radix_of(s);
    let digits = s.subrange(from, s.len() as int);
    if digits.len() > 0 && all_digits(digits, radix) {
        Some(digits_value(digits, radix) as int)
    } else {
        None
    }
}

proof fn lemma_prefix_value_bounded(s: Seq<char>, radix: nat, i: int)
    requires
        radix >= 1,
        0 <= i <= s.len(),
    ensures
        digits_value(s.subrange(0, i), radix) <= digits_value(s, radix),
    decreases s.len(),
{
    if i < s.len() {
        assert(s.drop_last().subrange(0, i) =~= s.subrange(0, i));
        lemma_prefix_value_bounded(s.drop_last(), radix, i);
        let v = digits_value(s.drop_last(), radix);
        assert(v <= v * radix) by (nonlinear_arith)
            requires
                radix >= 1,
        ;
    } else {
        assert(s.subrange(0, i) =~= s);
    }
}

fn digit(c: char, radix: u32) -> (r: Option<u32>)
    requires
        radix == 2 || radix == 10 || radix == 16,
    ensures
        r matches Some(d) ==> digit_value(c, radix as nat) == Some(d as nat) && d < radix,
        r is None ==> digit_value(c, radix as nat) is None,
{
    if '0' <= c && c <= '9' && (c as u32) - ('0' as u32) < radix {
        Some((c as u32) - ('0' as u32))
    } else if radix == 16 && 'a' <= c && c <= 'f' {
        Some((c as u32) - ('a' as u32) + 10)
    } else if radix == 16 && 'A' <= c && c <= 'F' {
        Some((c as u32) - ('A' as u32) + 10)
    } else {
        None
    }
}

/// Converts a number literal to its value as a 32-bit signed integer;
/// `None` where `literal_value` is `None` or above `i32::MAX`.
pub fn parse_literal(text: &String) -> (r: Option<i32>)
    ensures
        r matches Some(v) ==> literal_value(text@) == Some(v as int),
        r is None ==> match literal_value(text@) {
            Some(v) => v > i32::MAX,
            None => true,
        },
{
    let chars = chars_of(text);
    let mut s: Vec<char> = Vec::new();
    let mut i: usize = 0;
    while i < chars.len()
        invariant
            i <= chars@.len(),
            chars@ == text@,
            s@ == strip_separators(chars@.subrange(0, i as int)),
        decreases chars@.len() - i,
    {
        assert(chars@.subrange(0, i + 1).drop_last() =~= chars@.subrange(0, i as int));
        if chars[i] != '_' {
            s.push(chars[i]);
        }
        i = i + 1;
    }
    assert(chars@.subrange(0, i as int) =~= text@);
    let n = s.len();
    let (radix, from): (u32, usize) = if n >= 2 && s[0] == '0' && (s[1] == 'x' || s[1] == 'X') {
        (16, 2)
    } else if n >= 2 && s[0] == '0' && (s[1] == 'b' || s[1] == 'B') {
        (2, 2)
    } else {
        (10, 0)
    };
    let ghost digits = s@.subrange(from as int, n as int);
    assert(radix_of(s@) == (radix as nat, from as int));
    assert(literal_value(text@) == if digits.len() > 0 && all_digits(digits, radix as nat) {
        Some(digits_value(digits, radix as nat) as int)
    } else {
        None
    });
    if from >= n {
        return None;
    }
    let mut value: i32 = 0;
    let mut k: usize = from;
    while k < n
        invariant
            from <= k <= n,
            n == s@.len(),
            radix == 2 || radix == 10 || radix == 16,
            digits == s@.subrange(from as int, n as int),
            literal_value(text@) == if digits.len() > 0 && all_digits(digits, radix as nat) {
                Some(digits_value(digits, radix as nat) as int)
            } else {
                None
            },
            all_digits(s@.subrange(from as int, k as int), radix as nat),
            value as int == digits_value(s@.subrange(from as int, k as int), radix as nat),
            value >= 0,
        decreases n - k,
    {
        let ghost before = s@.subrange(from as int, k as int);
        let ghost after = s@.subrange(from as int, k + 1);
        assert(after.drop_last() =~= before);
        match digit(s[k], radix) {
            None => {
                assert(!all_digits(digits, radix as nat)) by {
                    assert(digits[k - from] == s@[k as int]);
                }
                return None;
            },
            Some(d) => {
                if value > (i32::MAX - d as i32) / radix as i32 {
                    proof {
                        assert(digits_value(after, radix as nat) == value * radix + d);
                        assert(value * radix + d > i32::MAX) by (nonlinear_arith)
                            requires
                                value > (i32::MAX - d) / (radix as int),
                                radix >= 2,
                                d < radix,
                        ;
                        assert(after =~= digits.subrange(0, k + 1 - from));
                        lemma_prefix_value_bounded(digits, radix as nat, k + 1 - from);
                    }
                    return None;
                }
                proof {
                    assert(value * radix + d <= i32::MAX) by (nonlinear_arith)
                        requires
                            value <= (i32::MAX - d) / (radix as int),
                            radix >= 2,
                            value >= 0,
                            d >= 0,
                    ;
                    assert(all_digits(after, radix as nat)) by {
                        assert forall|j: int| 0 <= j < after.len() implies (#[trigger] digit_value(after[j], radix as nat)) is Some by {
                            if j < before.len() {
                                assert(after[j] == before[j]);
                            }
                        }
                    }
                }
                value = value * radix as i32 + d as i32;
            },
        }
        k = k + 1;
    }
    assert(s@.subrange(from as int, k as int) =~= digits);
    Some(value)
}

/// Consumes a number token and converts it. The error is `InvalidNumber` on
/// a literal that does not convert, and "expected Number" on any other token;
/// neither is critical.
pub fn get_number(parser: &mut Parser) -> (r: Result<i32, CompilerError>)
    requires
        old(parser).wf(),
    ensures
        final(parser).wf(),
        final(parser).advanced_from(old(parser)),
        match old(parser).peek_spec().token_type {
            TokenType::Number(text) => match r {
                Ok(v) => literal_value(text@) == Some(v as int),
                Err(e) => e.code == ErrorCode::InvalidNumber && !e.critical && match literal_value(text@) {
                    Some(v) => v > i32::MAX,
                    None => true,
                },
            },
            other => match r {
                Err(e) => !e.critical && (e.code matches ErrorCode::ExpectedButFound(_, found) && found == other),
                Ok(_) => false,
            },
        },
{
    let token = parser.advance();
    match &token.token_type {
        TokenType::Number(num) => match parse_literal(num) {
            Some(v) => Ok(v),
            None => Err(CompilerError::from_token(ErrorCode::InvalidNumber, &token, false)),
        },
        _ => Err(CompilerError::expected("Number", &token, false)),
    }
}

/// An 8-bit immediate operand.
#[derive(Debug, Clone, Copy, PartialEq, Eq)]
pub struct Imm8(pub u8);

impl Imm8 {
    /// The immediate holding `value`, if it fits in 8 bits.
    pub fn new(value: i32) -> (r: Option<Imm8>)
        ensures
            0 <= value <= 255 ==> r == Some(Imm8(value as u8)),
            !(0 <= value <= 255) ==> r is None,
    {
        if 0 <= value && value <= 255 {
            Some(Imm8(value as u8))
        } else {
            None
        }
    }

    /// The low byte of a 16-bit value.
    pub fn from_imm16(value: Imm16) -> (r: Imm8)
        ensures
            r.0 == value.0 % 256,
    {
        Imm8((value.0 % 256) as u8)
    }

    /// Reads a number token that must fit in 8 bits.
    pub fn populate(parser: &mut Parser) -> (r: Result<Imm8, CompilerError>)
        requires
            old(parser).wf(),
        ensures
            final(parser).wf(),
            final(parser).advanced_from(old(parser)),
            r matches Ok(v) ==> old(parser).peek_spec().token_type matches TokenType::Number(text)
                && literal_value(text@) == Some(v.0 as int),
            (old(parser).peek_spec().token_type matches TokenType::Number(text) && literal_value(text@) matches Some(v)
                && 0 <= v <= 255) ==> r is Ok,
            r matches Err(e) ==> !e.critical,
    {
        let num = get_number(parser);
        match num {
            Ok(n) => match Imm8::new(n) {
                Some(v) => Ok(v),
                None => Err(CompilerError::from_token(ErrorCode::NumberTooBig(n), parser.current(), false)),
            },
            Err(e) => Err(e),
        }
    }

    /// An 8-bit immediate occupies one byte.
    pub fn get_size(&self) -> (r: u16)
        ensures
            r == 1,
    {
        1
    }

    /// Emits the byte.
    pub fn compile(&self, compiler: &mut Compiler)
        ensures
            final(compiler).bytes@ == old(compiler).bytes@.push(self.0),
            final(compiler).scope == old(compiler).scope,
    {
        compiler.add_byte(self.0);
    }
}

/// A 16-bit immediate operand.
#[derive(Debug, Clone, Copy, PartialEq, Eq)]
pub struct Imm16(pub u16);

/// The big-endian bytes of a 16-bit value.
pub open spec fn be_bytes(v: u16) -> Seq<u8> {
    seq![(v / 256) as u8, (v % 256) as u8]
}

impl Imm16 {
    /// The immediate holding `value`, if it fits in 16 bits.
    pub fn new(value: i32) -> (r: Option<Imm16>)
        ensures
            0 <= value <= 65535 ==> r == Some(Imm16(value as u16)),
            !(0 <= value <= 65535) ==> r is None,
    {
        if 0 <= value && value <= 65535 {
            Some(Imm16(value as u16))
        } else {
            None
        }
    }

    /// The immediate holding `value`.
    pub fn from(value: u16) -> (r: Imm16)
        ensures
            r.0 == value,
    {
        Imm16(value)
    }

    /// Reads a number token that must fit in 16 bits.
    pub fn populate(parser: &mut Parser) -> (r: Result<Imm16, CompilerError>)
        requires
            old(parser).wf(),
        ensures
            final(parser).wf(),
            final(parser).advanced_from(old(parser)),
            r matches Ok(v) ==> old(parser).peek_spec().token_type matches TokenType::Number(text)
                && literal_value(text@) == Some(v.0 as int),
            (old(parser).peek_spec().token_type matches TokenType::Number(text) && literal_value(text@) matches Some(v)
                && 0 <= v <= 65535) ==> r is Ok,
            r matches Err(e) ==> !e.critical,
    {
        let num = get_number(parser);
        match num {
            Ok(n) => match Imm16::new(n) {
                Some(v) => Ok(v),
                None => Err(CompilerError::from_token(ErrorCode::NumberTooBig(n), parser.current(), false)),
            },
            Err(e) => Err(e),
        }
    }

    /// A 16-bit immediate occupies two bytes.
    pub fn get_size(&self) -> (r: u16)
        ensures
            r == 2,
    {
        2
    }

    /// Emits the value, high byte first.
    pub fn compile(&self, compiler: &mut Compiler)
        ensures
            final(compiler).bytes@ == old(compiler).bytes@ + be_bytes(self.0),
            final(compiler).scope == old(compiler).scope,
    {
        compiler.add_byte((self.0 / 256) as u8);
        compiler.add_byte((self.0 % 256) as u8);
        assert(compiler.bytes@ =~= old(compiler).bytes@ + be_bytes(self.0));
    }
}

} // verus!
