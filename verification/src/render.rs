//! Rendering of the final report.
//!
//! Each client becomes one line `client,available,held,total,locked` with
//! the balances written to exactly four fractional decimal digits —
//! further digits are cut off toward zero — and the frozen flag as
//! lowercase `true` or `false`. The bytes of every line are pinned by the
//! spec functions here; only the final step from ASCII bytes to `String`
//! is trusted.

use vstd::prelude::*;
use crate::amount::{pow10, Amount};
use crate::tx_engine::ClientSnapshot;

verus! {

/// The decimal digits of `n`, most significant first, no leading zeros
/// (a single `0` for zero).
pub open spec fn dec_digits(n: nat) -> Seq<u8>
    decreases n,
{
    if n < 10 {
        seq![(48 + n) as u8]
    } else {
        dec_digits(n / 10).push((48 + n % 10) as u8)
    }
}

/// Exactly four decimal digits, zero padded, for a value below `10^4`.
pub open spec fn frac4_digits(f: nat) -> Seq<u8>
    recommends
        f < 10000,
{
    seq![
        (48 + f / 1000 % 10) as u8,
        (48 + f / 100 % 10) as u8,
        (48 + f / 10 % 10) as u8,
        (48 + f % 10) as u8,
    ]
}

/// A unit count written with four fractional digits: an optional minus
/// sign, the whole part, a dot, four digits. Digits beyond the fourth
/// are cut off toward zero.
pub open spec fn amount_4dp(units: int) -> Seq<u8> {
    let magnitude = (if units < 0 {
        -units
    } else {
        units
    }) / pow10(14);
    let sign: Seq<u8> = if units < 0 {
        seq![45u8]
    } else {
        Seq::empty()
    };
    sign + dec_digits((magnitude / 10000) as nat) + seq![46u8] + frac4_digits(
        (magnitude % 10000) as nat,
    )
}

/// The bytes of the report line for one client.
pub open spec fn snapshot_line(client: u16, available: int, held: int, frozen: bool) -> Seq<u8> {
    dec_digits(client as nat) + seq![44u8] + amount_4dp(available) + seq![44u8] + amount_4dp(held)
        + seq![44u8] + amount_4dp(available + held) + seq![44u8] + (if frozen {
        seq![116u8, 114u8, 117u8, 101u8]
    } else {
        seq![102u8, 97u8, 108u8, 115u8, 101u8]
    })
}

/// Whether a byte sequence is ASCII.
pub open spec fn all_ascii(s: Seq<u8>) -> bool {
    forall|i: int| 0 <= i < s.len() ==> s[i] < 128
}

/// The decimal digits of a nonnegative number, as bytes.
fn dec_digits_vec(n: i128) -> (r: Vec<u8>)
    requires
        n >= 0,
    ensures
        r@ == dec_digits(n as nat),
        all_ascii(r@),
    decreases n,
{
    if n < 10 {
        let mut v: Vec<u8> = Vec::new();
        v.push(48 + (n as u8));
        proof {
            assert(v@ =~= dec_digits(n as nat));
        }
        v
    } else {
        let mut v = dec_digits_vec(n / 10);
        v.push(48 + ((n % 10) as u8));
        proof {
            assert(v@ =~= dec_digits(n as nat));
        }
        v
    }
}

/// Appends the four zero-padded fractional digits of `f`.
fn push_frac4(out: &mut Vec<u8>, f: i128)
    requires
        0 <= f < 10000,
    ensures
        final(out)@ == old(out)@ + frac4_digits(f as nat),
        all_ascii(old(out)@) ==> all_ascii(final(out)@),
{
    let ghost before = out@;
    out.push(48 + ((f / 1000 % 10) as u8));
    out.push(48 + ((f / 100 % 10) as u8));
    out.push(48 + ((f / 10 % 10) as u8));
    out.push(48 + ((f % 10) as u8));
    proof {
        assert(out@ =~= before + frac4_digits(f as nat));
    }
}

/// Appends a unit count written with four fractional digits.
fn push_amount_4dp(out: &mut Vec<u8>, a: Amount)
    requires
        a@ > i128::MIN,
    ensures
        final(out)@ == old(out)@ + amount_4dp(a@),
        all_ascii(old(out)@) ==> all_ascii(final(out)@),
{
    let ghost before = out@;
    let units = a.inner();
    let magnitude: i128 = if units < 0 {
        out.push(45);
        -units
    } else {
        units
    };
    proof {
        lemma_pow10_14();
    }
    let scaled: i128 = magnitude / 100_000_000_000_000;
    let mut digits = dec_digits_vec(scaled / 10000);
    out.append(&mut digits);
    out.push(46);
    push_frac4(out, scaled % 10000);
    proof {
        assert(out@ =~= before + amount_4dp(a@));
    }
}

/// The concrete value of `10^14`, the divisor that cuts a unit count
/// down to four fractional digits.
proof fn lemma_pow10_14()
    ensures
        pow10(14) == 100_000_000_000_000,
{
    reveal_with_fuel(pow10, 15);
}

/// The report line of one snapshot row, as ASCII bytes.
fn render_snapshot_line_bytes(s: &ClientSnapshot) -> (r: Vec<u8>)
    requires
        s.available@ > i128::MIN,
        s.held@ > i128::MIN,
        i128::MIN < s.available@ + s.held@ <= i128::MAX,
    ensures
        r@ == snapshot_line(s.client_id.0, s.available@, s.held@, s.locked),
        all_ascii(r@),
{
    let mut out: Vec<u8> = Vec::new();
    let mut digits = dec_digits_vec(s.client_id.0 as i128);
    out.append(&mut digits);
    out.push(44);
    push_amount_4dp(&mut out, s.available);
    out.push(44);
    push_amount_4dp(&mut out, s.held);
    out.push(44);
    push_amount_4dp(&mut out, s.total());
    out.push(44);
    if s.locked {
        out.push(116);
        out.push(114);
        out.push(117);
        out.push(101);
    } else {
        out.push(102);
        out.push(97);
        out.push(108);
        out.push(115);
        out.push(101);
    }
    proof {
        assert(out@ =~= snapshot_line(s.client_id.0, s.available@, s.held@, s.locked));
    }
    out
}

/// Relies on `String::from_utf8`: ASCII bytes are valid UTF-8 and decode
/// to the characters with the same code points.
#[verifier::external_body]
fn ascii_to_string(bytes: Vec<u8>) -> (r: String)
    requires
        all_ascii(bytes@),
    ensures
        r@.len() == bytes@.len(),
        forall|i: int| 0 <= i < bytes@.len() ==> r@[i] == bytes@[i] as char,
{
    String::from_utf8(bytes).unwrap_or_default()
}

/// The report line of one snapshot row:
/// `client,available,held,total,locked`, balances to four fractional
/// digits, the flag as `true` or `false`.
pub fn render_snapshot_line(s: &ClientSnapshot) -> (r: String)
    requires
        s.available@ > i128::MIN,
        s.held@ > i128::MIN,
        i128::MIN < s.available@ + s.held@ <= i128::MAX,
    ensures
        r@.len() == snapshot_line(s.client_id.0, s.available@, s.held@, s.locked).len(),
        forall|i: int|
            0 <= i < r@.len() ==> r@[i] == snapshot_line(
                s.client_id.0,
                s.available@,
                s.held@,
                s.locked,
            )[i] as char,
{
    let bytes = render_snapshot_line_bytes(s);
    ascii_to_string(bytes)
}

} // verus!
