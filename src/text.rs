//! Rendering of values into trace messages.
use vstd::prelude::*;
use vstd::string::*;
use crate::model::{decimal, digit, bool_text};

verus! {

/// Relies on `String::push`: appends `c` to the end of `out`.
#[verifier::external_body]
pub fn push_char(out: &mut String, c: char)
    ensures
        final(out)@ == old(out)@.push(c),
{
    out.push(c)
}

/// Relies on the `Debug` impl of the caller's type, through `format!`: the text it
/// writes for `v`. Nothing is promised of that text.
#[verifier::external_body]
pub fn debug_text<V: std::fmt::Debug>(v: &V) -> String {
    format!("{:?}", v)
}

/// Appends the decimal rendering of `n` to `out`.
pub fn push_decimal(out: &mut String, n: usize)
    ensures
        final(out)@ == old(out)@ + decimal(n as nat),
    decreases n,
{
    if n >= 10 {
        push_decimal(out, n / 10);
    }
    let d: u8 = (n % 10) as u8;
    let c = (d + 48) as char;
    push_char(out, c);
    proof {
        assert(c == digit((n % 10) as nat));
        if n < 10 {
            assert(old(out)@ + decimal(n as nat) =~= old(out)@.push(c));
        } else {
            assert(old(out)@ + decimal((n / 10) as nat) + seq![c] =~= old(out)@ + decimal((n / 10) as nat).push(c));
        }
    }
}

/// Appends `true` or `false` to `out`.
pub fn push_bool(out: &mut String, b: bool)
    ensures
        final(out)@ == old(out)@ + bool_text(b),
{
    if b {
        out.append("true");
    } else {
        out.append("false");
    }
}

} // verus!
