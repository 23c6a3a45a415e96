//! Numerals: what a string of digits means in a base, and the integer types
//! that can be read from one.

use std::num::ParseIntError;
use vstd::prelude::*;

verus! {

/// The error of std's integer parsing. Nothing is read from it.
#[verifier::external_type_specification]
#[verifier::external_body]
pub struct ExParseIntError(ParseIntError);

/// What a character is worth as a digit in base `radix`: `0` to `9`, then
/// the letters from ten on, in either case.
pub open spec fn digit_value(c: char, radix: int) -> Option<int> {
    let u = c as u32 as int;
    let v = if '0' <= c <= '9' {
        u - 48
    } else if 'a' <= c <= 'z' {
        u - 97 + 10
    } else if 'A' <= c <= 'Z' {
        u - 65 + 10
    } else {
        radix
    };
    if v < radix {
        Some(v)
    } else {
        None
    }
}

/// At least one character, and digits of base `radix` only.
pub open spec fn is_numeral(digits: Seq<char>, radix: int) -> bool {
    digits.len() > 0 && forall|k: int|
        0 <= k < digits.len() ==> digit_value(#[trigger] digits[k], radix) is Some
}

/// The number that the digits write in base `radix`, the first digit
/// counting most.
pub open spec fn numeral_value(digits: Seq<char>, radix: int) -> int
    decreases digits.len(),
{
    if digits.len() == 0 {
        0
    } else {
        numeral_value(digits.drop_last(), radix) * radix + digit_value(digits.last(), radix)->0
    }
}

/// The integer that `s` writes in base `radix`: a numeral, with `+` before
/// it if one likes, or `-` where the type is signed. `None` for anything
/// else.
pub open spec fn parse_int(s: Seq<char>, radix: int, signed: bool) -> Option<int> {
    if s.len() > 0 && s[0] == '+' {
        if is_numeral(s.drop_first(), radix) {
            Some(numeral_value(s.drop_first(), radix))
        } else {
            None
        }
    } else if signed && s.len() > 0 && s[0] == '-' {
        if is_numeral(s.drop_first(), radix) {
            Some(-numeral_value(s.drop_first(), radix))
        } else {
            None
        }
    } else if is_numeral(s, radix) {
        Some(numeral_value(s, radix))
    } else {
        None
    }
}

/// `parse_int`, kept only where the integer lies from `lowest` to `highest`.
pub open spec fn parse_within(s: Seq<char>, radix: int, lowest: int, highest: int) -> Option<int> {
    match parse_int(s, radix, lowest < 0) {
        Some(v) => if lowest <= v <= highest {
            Some(v)
        } else {
            None
        },
        None => None,
    }
}

/// An integer type that can be read from a numeral.
pub trait FromStrRadix: Sized {
    /// The least value of the type.
    spec fn lowest() -> int;

    /// The greatest value of the type.
    spec fn highest() -> int;

    /// The integer that a value of the type stands for.
    spec fn value(self) -> int;

    /// Reads `digits` in base `radix`. It succeeds exactly where `digits`
    /// writes an integer of the type, and then with that integer.
    fn from_str_radix(digits: &str, radix: u32) -> (parsed: Result<Self, ParseIntError>)
        requires
            2 <= radix <= 36,
        ensures
            match parse_within(digits@, radix as int, Self::lowest(), Self::highest()) {
                Some(v) => parsed is Ok && parsed->Ok_0.value() == v,
                None => parsed is Err,
            },
    ;
}

/// `num::Num::from_str_radix` for `u8`, which hands on to std's
/// `u8::from_str_radix`: an optional `+`, then digits of the base
/// only; an error for anything else and for a value out of range. It panics
/// on a base outside 2 to 36.
#[verifier::external_body]
fn u8_from_str_radix(digits: &str, radix: u32) -> (parsed: Result<u8, ParseIntError>)
    requires
        2 <= radix <= 36,
    ensures
        match parse_within(digits@, radix as int, u8::MIN as int, u8::MAX as int) {
            Some(v) => parsed is Ok && parsed->Ok_0 == v,
            None => parsed is Err,
        },
{
    <u8 as num::Num>::from_str_radix(digits, radix)
}

impl FromStrRadix for u8 {
    open spec fn lowest() -> int {
        u8::MIN as int
    }

    open spec fn highest() -> int {
        u8::MAX as int
    }

    open spec fn value(self) -> int {
        self as int
    }

    fn from_str_radix(digits: &str, radix: u32) -> (parsed: Result<Self, ParseIntError>) {
        u8_from_str_radix(digits, radix)
    }
}

/// `num::Num::from_str_radix` for `u16`, which hands on to std's
/// `u16::from_str_radix`: an optional `+`, then digits of the base
/// only; an error for anything else and for a value out of range. It panics
/// on a base outside 2 to 36.
#[verifier::external_body]
fn u16_from_str_radix(digits: &str, radix: u32) -> (parsed: Result<u16, ParseIntError>)
    requires
        2 <= radix <= 36,
    ensures
        match parse_within(digits@, radix as int, u16::MIN as int, u16::MAX as int) {
            Some(v) => parsed is Ok && parsed->Ok_0 == v,
            None => parsed is Err,
        },
{
    <u16 as num::Num>::from_str_radix(digits, radix)
}

impl FromStrRadix for u16 {
    open spec fn lowest() -> int {
        u16::MIN as int
    }

    open spec fn highest() -> int {
        u16::MAX as int
    }

    open spec fn value(self) -> int {
        self as int
    }

    fn from_str_radix(digits: &str, radix: u32) -> (parsed: Result<Self, ParseIntError>) {
        u16_from_str_radix(digits, radix)
    }
}

/// `num::Num::from_str_radix` for `u32`, which hands on to std's
/// `u32::from_str_radix`: an optional `+`, then digits of the base
/// only; an error for anything else and for a value out of range. It panics
/// on a base outside 2 to 36.
#[verifier::external_body]
fn u32_from_str_radix(digits: &str, radix: u32) -> (parsed: Result<u32, ParseIntError>)
    requires
        2 <= radix <= 36,
    ensures
        match parse_within(digits@, radix as int, u32::MIN as int, u32::MAX as int) {
            Some(v) => parsed is Ok && parsed->Ok_0 == v,
            None => parsed is Err,
        },
{
    <u32 as num::Num>::from_str_radix(digits, radix)
}

impl FromStrRadix for u32 {
    open spec fn lowest() -> int {
        u32::MIN as int
    }

    open spec fn highest() -> int {
        u32::MAX as int
    }

    open spec fn value(self) -> int {
        self as int
    }

    fn from_str_radix(digits: &str, radix: u32) -> (parsed: Result<Self, ParseIntError>) {
        u32_from_str_radix(digits, radix)
    }
}

/// `num::Num::from_str_radix` for `u64`, which hands on to std's
/// `u64::from_str_radix`: an optional `+`, then digits of the base
/// only; an error for anything else and for a value out of range. It panics
/// on a base outside 2 to 36.
#[verifier::external_body]
fn u64_from_str_radix(digits: &str, radix: u32) -> (parsed: Result<u64, ParseIntError>)
    requires
        2 <= radix <= 36,
    ensures
        match parse_within(digits@, radix as int, u64::MIN as int, u64::MAX as int) {
            Some(v) => parsed is Ok && parsed->Ok_0 == v,
            None => parsed is Err,
        },
{
    <u64 as num::Num>::from_str_radix(digits, radix)
}

impl FromStrRadix for u64 {
    open spec fn lowest() -> int {
        u64::MIN as int
    }

    open spec fn highest() -> int {
        u64::MAX as int
    }

    open spec fn value(self) -> int {
        self as int
    }

    fn from_str_radix(digits: &str, radix: u32) -> (parsed: Result<Self, ParseIntError>) {
        u64_from_str_radix(digits, radix)
    }
}

/// `num::Num::from_str_radix` for `u128`, which hands on to std's
/// `u128::from_str_radix`: an optional `+`, then digits of the base
/// only; an error for anything else and for a value out of range. It panics
/// on a base outside 2 to 36.
#[verifier::external_body]
fn u128_from_str_radix(digits: &str, radix: u32) -> (parsed: Result<u128, ParseIntError>)
    requires
        2 <= radix <= 36,
    ensures
        match parse_within(digits@, radix as int, u128::MIN as int, u128::MAX as int) {
            Some(v) => parsed is Ok && parsed->Ok_0 == v,
            None => parsed is Err,
        },
{
    <u128 as num::Num>::from_str_radix(digits, radix)
}

impl FromStrRadix for u128 {
    open spec fn lowest() -> int {
        u128::MIN as int
    }

    open spec fn highest() -> int {
        u128::MAX as int
    }

    open spec fn value(self) -> int {
        self as int
    }

    fn from_str_radix(digits: &str, radix: u32) -> (parsed: Result<Self, ParseIntError>) {
        u128_from_str_radix(digits, radix)
    }
}

/// `num::Num::from_str_radix` for `usize`, which hands on to std's
/// `usize::from_str_radix`: an optional `+`, then digits of the base
/// only; an error for anything else and for a value out of range. It panics
/// on a base outside 2 to 36.
#[verifier::external_body]
fn usize_from_str_radix(digits: &str, radix: u32) -> (parsed: Result<usize, ParseIntError>)
    requires
        2 <= radix <= 36,
    ensures
        match parse_within(digits@, radix as int, usize::MIN as int, usize::MAX as int) {
            Some(v) => parsed is Ok && parsed->Ok_0 == v,
            None => parsed is Err,
        },
{
    <usize as num::Num>::from_str_radix(digits, radix)
}

impl FromStrRadix for usize {
    open spec fn lowest() -> int {
        usize::MIN as int
    }

    open spec fn highest() -> int {
        usize::MAX as int
    }

    open spec fn value(self) -> int {
        self as int
    }

    fn from_str_radix(digits: &str, radix: u32) -> (parsed: Result<Self, ParseIntError>) {
        usize_from_str_radix(digits, radix)
    }
}

/// `num::Num::from_str_radix` for `i8`, which hands on to std's
/// `i8::from_str_radix`: an optional `+` or `-`, then digits of the base
/// only; an error for anything else and for a value out of range. It panics
/// on a base outside 2 to 36.
#[verifier::external_body]
fn i8_from_str_radix(digits: &str, radix: u32) -> (parsed: Result<i8, ParseIntError>)
    requires
        2 <= radix <= 36,
    ensures
        match parse_within(digits@, radix as int, i8::MIN as int, i8::MAX as int) {
            Some(v) => parsed is Ok && parsed->Ok_0 == v,
            None => parsed is Err,
        },
{
    <i8 as num::Num>::from_str_radix(digits, radix)
}

impl FromStrRadix for i8 {
    open spec fn lowest() -> int {
        i8::MIN as int
    }

    open spec fn highest() -> int {
        i8::MAX as int
    }

    open spec fn value(self) -> int {
        self as int
    }

    fn from_str_radix(digits: &str, radix: u32) -> (parsed: Result<Self, ParseIntError>) {
        i8_from_str_radix(digits, radix)
    }
}

/// `num::Num::from_str_radix` for `i16`, which hands on to std's
/// `i16::from_str_radix`: an optional `+` or `-`, then digits of the base
/// only; an error for anything else and for a value out of range. It panics
/// on a base outside 2 to 36.
#[verifier::external_body]
fn i16_from_str_radix(digits: &str, radix: u32) -> (parsed: Result<i16, ParseIntError>)
    requires
        2 <= radix <= 36,
    ensures
        match parse_within(digits@, radix as int, i16::MIN as int, i16::MAX as int) {
            Some(v) => parsed is Ok && parsed->Ok_0 == v,
            None => parsed is Err,
        },
{
    <i16 as num::Num>::from_str_radix(digits, radix)
}

impl FromStrRadix for i16 {
    open spec fn lowest() -> int {
        i16::MIN as int
    }

    open spec fn highest() -> int {
        i16::MAX as int
    }

    open spec fn value(self) -> int {
        self as int
    }

    fn from_str_radix(digits: &str, radix: u32) -> (parsed: Result<Self, ParseIntError>) {
        i16_from_str_radix(digits, radix)
    }
}

/// `num::Num::from_str_radix` for `i32`, which hands on to std's
/// `i32::from_str_radix`: an optional `+` or `-`, then digits of the base
/// only; an error for anything else and for a value out of range. It panics
/// on a base outside 2 to 36.
#[verifier::external_body]
fn i32_from_str_radix(digits: &str, radix: u32) -> (parsed: Result<i32, ParseIntError>)
    requires
        2 <= radix <= 36,
    ensures
        match parse_within(digits@, radix as int, i32::MIN as int, i32::MAX as int) {
            Some(v) => parsed is Ok && parsed->Ok_0 == v,
            None => parsed is Err,
        },
{
    <i32 as num::Num>::from_str_radix(digits, radix)
}

impl FromStrRadix for i32 {
    open spec fn lowest() -> int {
        i32::MIN as int
    }

    open spec fn highest() -> int {
        i32::MAX as int
    }

    open spec fn value(self) -> int {
        self as int
    }

    fn from_str_radix(digits: &str, radix: u32) -> (parsed: Result<Self, ParseIntError>) {
        i32_from_str_radix(digits, radix)
    }
}

/// `num::Num::from_str_radix` for `i64`, which hands on to std's
/// `i64::from_str_radix`: an optional `+` or `-`, then digits of the base
/// only; an error for anything else and for a value out of range. It panics
/// on a base outside 2 to 36.
#[verifier::external_body]
fn i64_from_str_radix(digits: &str, radix: u32) -> (parsed: Result<i64, ParseIntError>)
    requires
        2 <= radix <= 36,
    ensures
        match parse_within(digits@, radix as int, i64::MIN as int, i64::MAX as int) {
            Some(v) => parsed is Ok && parsed->Ok_0 == v,
            None => parsed is Err,
        },
{
    <i64 as num::Num>::from_str_radix(digits, radix)
}

impl FromStrRadix for i64 {
    open spec fn lowest() -> int {
        i64::MIN as int
    }

    open spec fn highest() -> int {
        i64::MAX as int
    }

    open spec fn value(self) -> int {
        self as int
    }

    fn from_str_radix(digits: &str, radix: u32) -> (parsed: Result<Self, ParseIntError>) {
        i64_from_str_radix(digits, radix)
    }
}

/// `num::Num::from_str_radix` for `i128`, which hands on to std's
/// `i128::from_str_radix`: an optional `+` or `-`, then digits of the base
/// only; an error for anything else and for a value out of range. It panics
/// on a base outside 2 to 36.
#[verifier::external_body]
fn i128_from_str_radix(digits: &str, radix: u32) -> (parsed: Result<i128, ParseIntError>)
    requires
        2 <= radix <= 36,
    ensures
        match parse_within(digits@, radix as int, i128::MIN as int, i128::MAX as int) {
            Some(v) => parsed is Ok && parsed->Ok_0 == v,
            None => parsed is Err,
        },
{
    <i128 as num::Num>::from_str_radix(digits, radix)
}

impl FromStrRadix for i128 {
    open spec fn lowest() -> int {
        i128::MIN as int
    }

    open spec fn highest() -> int {
        i128::MAX as int
    }

    open spec fn value(self) -> int {
        self as int
    }

    fn from_str_radix(digits: &str, radix: u32) -> (parsed: Result<Self, ParseIntError>) {
        i128_from_str_radix(digits, radix)
    }
}

/// `num::Num::from_str_radix` for `isize`, which hands on to std's
/// `isize::from_str_radix`: an optional `+` or `-`, then digits of the base
/// only; an error for anything else and for a value out of range. It panics
/// on a base outside 2 to 36.
#[verifier::external_body]
fn isize_from_str_radix(digits: &str, radix: u32) -> (parsed: Result<isize, ParseIntError>)
    requires
        2 <= radix <= 36,
    ensures
        match parse_within(digits@, radix as int, isize::MIN as int, isize::MAX as int) {
            Some(v) => parsed is Ok && parsed->Ok_0 == v,
            None => parsed is Err,
        },
{
    <isize as num::Num>::from_str_radix(digits, radix)
}

impl FromStrRadix for isize {
    open spec fn lowest() -> int {
        isize::MIN as int
    }

    open spec fn highest() -> int {
        isize::MAX as int
    }

    open spec fn value(self) -> int {
        self as int
    }

    fn from_str_radix(digits: &str, radix: u32) -> (parsed: Result<Self, ParseIntError>) {
        isize_from_str_radix(digits, radix)
    }
}

} // verus!
