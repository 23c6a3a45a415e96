//! What a command's callback reads its arguments with.

use crate::error::Error;
use crate::numeral::{parse_within, FromStrRadix};
use crate::text::str_eq;
use vstd::prelude::*;

verus! {

/// What a token means as a switch: `Some(true)` for `true`, `yes`, `on`,
/// `enable`, `y` and `1`, `Some(false)` for `false`, `no`, `off`, `disable`,
/// `n` and `0`, each taken letter for letter, and `None` for any other.
pub open spec fn bool_alias(token: Seq<char>) -> Option<bool> {
    if token =~= seq!['t', 'r', 'u', 'e']
        || token =~= seq!['y', 'e', 's']
        || token =~= seq!['o', 'n']
        || token =~= seq!['e', 'n', 'a', 'b', 'l', 'e']
        || token =~= seq!['y']
        || token =~= seq!['1'] {
        Some(true)
    } else if token =~= seq!['f', 'a', 'l', 's', 'e']
        || token =~= seq!['n', 'o']
        || token =~= seq!['o', 'f', 'f']
        || token =~= seq!['d', 'i', 's', 'a', 'b', 'l', 'e']
        || token =~= seq!['n']
        || token =~= seq!['0'] {
        Some(false)
    } else {
        None
    }
}

/// The token itself, or `NotEnoughArgs` where the stream had none left.
pub fn unwrap<'a>(s: Option<&'a str>) -> (token: Result<&'a str, Error>)
    ensures
        token == match s {
            Some(val) => Ok::<&str, Error>(val),
            None => Err(Error::NotEnoughArgs),
        },
{
    match s {
        Some(val) => Ok(val),
        None => Err(Error::NotEnoughArgs),
    }
}

/// Reads a token as a switch.
pub fn bool_from_str(s: Option<&str>) -> (state: Result<bool, Error>)
    ensures
        state == match s {
            None => Err::<bool, Error>(Error::NotEnoughArgs),
            Some(token) => match bool_alias(token@) {
                Some(b) => Ok(b),
                None => Err(Error::InvalidArgType),
            },
        },
{
    let s = match s {
        Some(val) => val,
        None => return Err(Error::NotEnoughArgs),
    };
    proof {
        reveal_strlit("true");
        reveal_strlit("yes");
        reveal_strlit("on");
        reveal_strlit("enable");
        reveal_strlit("y");
        reveal_strlit("1");
        reveal_strlit("false");
        reveal_strlit("no");
        reveal_strlit("off");
        reveal_strlit("disable");
        reveal_strlit("n");
        reveal_strlit("0");
        assert("true"@ =~= seq!['t', 'r', 'u', 'e']);
        assert("yes"@ =~= seq!['y', 'e', 's']);
        assert("on"@ =~= seq!['o', 'n']);
        assert("enable"@ =~= seq!['e', 'n', 'a', 'b', 'l', 'e']);
        assert("y"@ =~= seq!['y']);
        assert("1"@ =~= seq!['1']);
        assert("false"@ =~= seq!['f', 'a', 'l', 's', 'e']);
        assert("no"@ =~= seq!['n', 'o']);
        assert("off"@ =~= seq!['o', 'f', 'f']);
        assert("disable"@ =~= seq!['d', 'i', 's', 'a', 'b', 'l', 'e']);
        assert("n"@ =~= seq!['n']);
        assert("0"@ =~= seq!['0']);
    }
    if str_eq(s, "true") || str_eq(s, "yes") || str_eq(s, "on") || str_eq(s, "enable")
        || str_eq(s, "y") || str_eq(s, "1") {
        Ok(true)
    } else if str_eq(s, "false") || str_eq(s, "no") || str_eq(s, "off") || str_eq(s, "disable")
        || str_eq(s, "n") || str_eq(s, "0") {
        Ok(false)
    } else {
        Err(Error::InvalidArgType)
    }
}

/// Whether a token starts with `0` and then `mark`.
pub open spec fn has_prefix(token: Seq<char>, mark: char) -> bool {
    token.len() >= 2 && token[0] == '0' && token[1] == mark
}

/// The base that a token is written in: sixteen after `0x`, two after `0b`,
/// else ten.
pub open spec fn radix_of(token: Seq<char>) -> int {
    if has_prefix(token, 'x') {
        16
    } else if has_prefix(token, 'b') {
        2
    } else {
        10
    }
}

/// The token without the prefix that gave its base.
pub open spec fn digits_of(token: Seq<char>) -> Seq<char> {
    if has_prefix(token, 'x') || has_prefix(token, 'b') {
        token.skip(2)
    } else {
        token
    }
}

/// The integer from `lowest` to `highest` that a token writes, if it
/// writes one.
pub open spec fn int_of(token: Seq<char>, lowest: int, highest: int) -> Option<int> {
    parse_within(digits_of(token), radix_of(token), lowest, highest)
}

/// Reads a token as an integer of type `T`, in base sixteen after `0x`, in
/// base two after `0b`, else in base ten.
pub fn int_from_str<T: FromStrRadix>(s: Option<&str>) -> (number: Result<T, Error>)
    ensures
        match s {
            None => number == Err::<T, Error>(Error::NotEnoughArgs),
            Some(token) => match int_of(token@, T::lowest(), T::highest()) {
                Some(v) => number is Ok && number->Ok_0.value() == v,
                None => number == Err::<T, Error>(Error::InvalidArgType),
            },
        },
{
    let s = match s {
        Some(val) => val,
        None => return Err(Error::NotEnoughArgs),
    };
    let n = s.unicode_len();
    let mut radix: u32 = 10;
    let mut s_clean = s;
    if n >= 2 && s.get_char(0) == '0' {
        let mark = s.get_char(1);
        if mark == 'x' {
            radix = 16;
            s_clean = s.substring_char(2, n);
        } else if mark == 'b' {
            radix = 2;
            s_clean = s.substring_char(2, n);
        }
    }
    assert(s_clean@ =~= digits_of(s@));
    match T::from_str_radix(s_clean, radix) {
        Ok(val) => Ok(val),
        Err(_) => Err(Error::InvalidArgType),
    }
}

} // verus!
