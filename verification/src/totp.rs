//! One-time-code generation for a stored secret.
//!
//! The code value itself comes from the external TOTP primitive; this module
//! fixes the parameters the registry uses (six digits, thirty-second steps,
//! the Unix epoch) and renders the value as a zero-padded decimal string.

use vstd::prelude::*;
use crate::text::chars_to_string;

verus! {

/// The raw TOTP value for a secret at a moment: the truncated HMAC-SHA-1 of
/// the time counter, reduced to `digits` decimal digits.  Deterministic in
/// its arguments.
pub uninterp spec fn totp_code(key: Seq<u8>, digits: u32, epoch: u64, time_step: u64, time: u64) -> u64;

/// Ten to the `n`.
pub open spec fn pow10(n: nat) -> nat
    decreases n,
{
    if n == 0 {
        1
    } else {
        10 * pow10((n - 1) as nat)
    }
}

/// Relies on `oath::totp_custom` with SHA-1: the value depends on the key,
/// digit count, epoch, step and time alone, and is reduced modulo ten to the
/// digit count.
#[verifier::external_body]
fn totp_raw_sha1(key: &[u8], digits: u32, epoch: u64, time_step: u64, time: u64) -> (r: u64)
    requires
        time_step > 0,
        epoch <= time,
        digits <= 19,
    ensures
        r == totp_code(key@, digits, epoch, time_step, time),
        r < pow10(digits as nat),
{
    oath::totp_custom(key, digits, epoch, time_step, time, crypto::sha1::Sha1::new())
}

/// The character of a decimal digit.
pub open spec fn digit_char(d: u64) -> char {
    ((48 + (d % 10)) as u8) as char
}

/// Six decimal digits, most significant first, leading zeroes kept.
pub open spec fn decimal6(v: u64) -> Seq<char> {
    seq![
        digit_char(v / 100000),
        digit_char(v / 10000),
        digit_char(v / 1000),
        digit_char(v / 100),
        digit_char(v / 10),
        digit_char(v),
    ]
}

/// Renders a code value below one million as exactly six digits.
pub fn format_code(value: u64) -> (r: Vec<char>)
    requires
        value < 1000000,
    ensures
        r@ == decimal6(value),
        r@.len() == 6,
{
    let mut r: Vec<char> = Vec::new();
    r.push((48u8 + ((value / 100000) % 10) as u8) as char);
    r.push((48u8 + ((value / 10000) % 10) as u8) as char);
    r.push((48u8 + ((value / 1000) % 10) as u8) as char);
    r.push((48u8 + ((value / 100) % 10) as u8) as char);
    r.push((48u8 + ((value / 10) % 10) as u8) as char);
    r.push((48u8 + (value % 10) as u8) as char);
    proof {
        assert(r@ =~= decimal6(value));
    }
    r
}

/// The registry's code for a secret at a Unix time: six digits, zero
/// padded, over thirty-second steps from the epoch.
pub fn totp(secret: &[u8], time: u64) -> (r: String)
    ensures
        r@ == decimal6(totp_code(secret@, 6, 0, 30, time)),
        r@.len() == 6,
{
    let value = totp_raw_sha1(secret, 6, 0, 30, time);
    proof {
        assert(pow10(0) == 1);
        assert(pow10(1) == 10);
        assert(pow10(2) == 100);
        assert(pow10(3) == 1000);
        assert(pow10(4) == 10000);
        assert(pow10(5) == 100000);
        assert(pow10(6) == 1000000);
    }
    let chars = format_code(value);
    chars_to_string(&chars)
}

} // verus!
