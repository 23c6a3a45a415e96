//! The commands of a small device: a led to switch, an RGB led to set, and
//! an identity to give.

use crate::args::Args;
use crate::buffer::{fitted, lemma_overflow_grows, text_of, BoundedString};
use crate::error::Error;
use crate::text::{byte_len, lemma_byte_len_add};
use crate::utils::{bool_alias, bool_from_str, int_from_str, int_of, unwrap};
use vstd::prelude::*;

verus! {

/// The character that writes a digit below ten.
pub open spec fn digit_char(d: int) -> char {
    ('0' as int + d) as char
}

/// A number as it is written in base ten, without zeros before it.
pub open spec fn decimal(n: nat) -> Seq<char>
    decreases n,
{
    if n < 10 {
        seq![digit_char(n as int)]
    } else {
        decimal(n / 10).push(digit_char((n % 10) as int))
    }
}

/// What the led answers: that it is on or off now, as the first token says.
pub open spec fn led_answer(args: Seq<Seq<char>>) -> Result<Seq<char>, Error> {
    if args.len() == 0 {
        Err(Error::NotEnoughArgs)
    } else {
        match bool_alias(args[0]) {
            Some(true) => Ok("Led is ON now"@),
            Some(false) => Ok("Led is OFF now"@),
            None => Err(Error::InvalidArgType),
        }
    }
}

/// The brightness that the token at `i` gives a channel: an integer from 0
/// to 255.
pub open spec fn channel(args: Seq<Seq<char>>, i: int) -> Result<int, Error> {
    if i >= args.len() {
        Err(Error::NotEnoughArgs)
    } else {
        match int_of(args[i], 0, 255) {
            Some(v) => Ok(v),
            None => Err(Error::InvalidArgType),
        }
    }
}

/// The answer that names the brightness of the three channels.
pub open spec fn rgb_text(r: int, g: int, b: int) -> Seq<char> {
    "Ok, R="@ + decimal(r as nat) + ", G="@ + decimal(g as nat) + ", B="@ + decimal(b as nat)
}

/// What the RGB led answers: the brightness of red, green and blue, as the
/// first three tokens give it, or the error of the first of them that gives
/// none.
pub open spec fn rgb_answer(args: Seq<Seq<char>>) -> Result<Seq<char>, Error> {
    match channel(args, 0) {
        Err(e) => Err(e),
        Ok(r) => match channel(args, 1) {
            Err(e) => Err(e),
            Ok(g) => match channel(args, 2) {
                Err(e) => Err(e),
                Ok(b) => Ok(rgb_text(r, g, b)),
            },
        },
    }
}

/// What the identity answers: the first token, in quotes.
pub open spec fn id_answer(args: Seq<Seq<char>>) -> Result<Seq<char>, Error> {
    if args.len() == 0 {
        Err(Error::NotEnoughArgs)
    } else {
        Ok("Ok, id='"@ + args[0] + "'"@)
    }
}

/// Appends `piece`, which comes next in the text `whole` that is being
/// written.
fn push_part<const N: usize>(
    buf: &mut BoundedString<N>,
    piece: &str,
    Ghost(whole): Ghost<Seq<char>>,
) -> (done: Result<(), Error>)
    requires
        (old(buf)@ + piece@).is_prefix_of(whole),
    ensures
        done is Ok ==> final(buf)@ == old(buf)@ + piece@,
        done is Err ==> done == Err::<(), Error>(Error::BufferOverflow) && byte_len(whole) > N,
{
    let ghost before = buf@;
    match buf.try_push_str(piece) {
        Ok(()) => Ok(()),
        Err(e) => {
            proof {
                let empty = Seq::<char>::empty();
                lemma_byte_len_add(before, piece@);
                assert(empty + (before + piece@) =~= before + piece@);
                assert(empty + whole =~= whole);
                lemma_overflow_grows(empty, before + piece@, whole, N as int);
            }
            Err(e)
        },
    }
}

/// The digits of `n` in base ten.
fn decimal_digits(n: u8) -> (digits: String)
    ensures
        digits@ == decimal(n as nat),
{
    let mut digits = String::new();
    if n >= 100 {
        digits.push((48 + n / 100) as char);
    }
    if n >= 10 {
        digits.push((48 + (n / 10) % 10) as char);
    }
    digits.push((48 + n % 10) as char);
    proof {
        reveal_with_fuel(decimal, 3);
        assert(digits@ =~= decimal(n as nat));
    }
    digits
}

/// Switches the led as the first token says.
pub fn cmd_led<const N: usize>(args: Args<'_>) -> (answer: Result<BoundedString<N>, Error>)
    ensures
        text_of(answer) == fitted(led_answer(args@), N as int),
{
    let mut args = args;
    let state = match bool_from_str(args.next()) {
        Ok(state) => state,
        Err(e) => return Err(e),
    };
    if state {
        BoundedString::from("Led is ON now")
    } else {
        BoundedString::from("Led is OFF now")
    }
}

/// Sets the three channels of the RGB led as the first three tokens say.
pub fn cmd_rgb<const N: usize>(args: Args<'_>) -> (answer: Result<BoundedString<N>, Error>)
    ensures
        text_of(answer) == fitted(rgb_answer(args@), N as int),
{
    let mut args = args;
    let ghost all = args@;
    let r = match int_from_str::<u8>(args.next()) {
        Ok(r) => r,
        Err(e) => return Err(e),
    };
    assert(args@ =~= all.skip(1));
    let g = match int_from_str::<u8>(args.next()) {
        Ok(g) => g,
        Err(e) => return Err(e),
    };
    assert(args@ =~= all.skip(2));
    let b = match int_from_str::<u8>(args.next()) {
        Ok(b) => b,
        Err(e) => return Err(e),
    };
    let ghost whole = rgb_text(r as int, g as int, b as int);
    let ghost red = decimal(r as nat);
    let ghost green = decimal(g as nat);
    let ghost blue = decimal(b as nat);
    let mut res = BoundedString::<N>::new();
    assert(Seq::<char>::empty() + "Ok, R="@ =~= "Ok, R="@);
    if let Err(e) = push_part(&mut res, "Ok, R=", Ghost(whole)) {
        return Err(e);
    }
    assert(res@ =~= "Ok, R="@);
    if let Err(e) = push_part(&mut res, decimal_digits(r).as_str(), Ghost(whole)) {
        return Err(e);
    }
    assert(res@ =~= "Ok, R="@ + red);
    if let Err(e) = push_part(&mut res, ", G=", Ghost(whole)) {
        return Err(e);
    }
    assert(res@ =~= "Ok, R="@ + red + ", G="@);
    if let Err(e) = push_part(&mut res, decimal_digits(g).as_str(), Ghost(whole)) {
        return Err(e);
    }
    assert(res@ =~= "Ok, R="@ + red + ", G="@ + green);
    if let Err(e) = push_part(&mut res, ", B=", Ghost(whole)) {
        return Err(e);
    }
    assert(res@ =~= "Ok, R="@ + red + ", G="@ + green + ", B="@);
    if let Err(e) = push_part(&mut res, decimal_digits(b).as_str(), Ghost(whole)) {
        return Err(e);
    }
    assert(res@ =~= whole);
    proof {
        use_type_invariant(&res);
    }
    Ok(res)
}

/// Takes the first token for the identity of the device.
pub fn cmd_id<const N: usize>(args: Args<'_>) -> (answer: Result<BoundedString<N>, Error>)
    ensures
        text_of(answer) == fitted(id_answer(args@), N as int),
{
    let mut args = args;
    let id = match unwrap(args.next()) {
        Ok(id) => id,
        Err(e) => return Err(e),
    };
    let ghost whole = "Ok, id='"@ + id@ + "'"@;
    let mut res = BoundedString::<N>::new();
    assert(Seq::<char>::empty() + "Ok, id='"@ =~= "Ok, id='"@);
    if let Err(e) = push_part(&mut res, "Ok, id='", Ghost(whole)) {
        return Err(e);
    }
    assert(res@ =~= "Ok, id='"@);
    if let Err(e) = push_part(&mut res, id, Ghost(whole)) {
        return Err(e);
    }
    assert(res@ =~= "Ok, id='"@ + id@);
    if let Err(e) = push_part(&mut res, "'", Ghost(whole)) {
        return Err(e);
    }
    assert(res@ =~= whole);
    proof {
        use_type_invariant(&res);
    }
    Ok(res)
}

} // verus!
