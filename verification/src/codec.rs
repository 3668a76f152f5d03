//! The control-channel wire codec: one JSON object per line, one line per
//! command, exactly as the host writes it and the injected runtime reads it.
//!
//! The encoder produces a canonical form: fixed key order, no whitespace,
//! fixed-point numbers with two decimal places. The parser is wider: it
//! takes numbers with a bare integer part or any number of fraction
//! digits (the first two carry value), and an optional space after the
//! variant tag, as the documented wire examples show. Parsing what the
//! encoder produced gives back the original value: see
//! [`lemma_command_round_trip`].
//!
//! Text rides the channel unescaped, by design: a string field holds any
//! printable bytes except the quote and the backslash (see
//! [`crate::text::wire_safe`]), so a line needs no escape processing on
//! either side; the host drops other bytes from its inputs with
//! [`crate::text::sanitize_wire`] before they reach a command.
use vstd::prelude::*;

use crate::text::{is_digit, lit_bytes, match_at, wire_safe};
use crate::config::{
    Command, CommandView, CrosshairView, Fx, FpsConfig, FpsView, FX_MAX, Notification,
    NotificationView, OverlayCrosshairData, opt_grid_view, opt_view, valid_command,
    valid_crosshair, valid_fps, valid_fx, valid_notification,
};
use crate::text::append_lit;

verus! {

use vstd::string::StringSliceAdditionalSpecFns;

// ---------------------------------------------------------------------------
// Decimal digits
// ---------------------------------------------------------------------------

/// Ten to the `k`.
pub open spec fn pow10(k: nat) -> int
    decreases k,
{
    if k == 0 {
        1
    } else {
        10 * pow10((k - 1) as nat)
    }
}

/// The ASCII byte of one decimal digit.
pub open spec fn digit_byte(n: int) -> u8
    recommends
        0 <= n < 10,
{
    (0x30 + n) as u8
}

/// Decimal digits of a natural number, most significant first.
pub open spec fn enc_u64(n: nat) -> Seq<u8>
    decreases n,
{
    if n < 10 {
        seq![digit_byte(n as int)]
    } else {
        enc_u64(n / 10).push(digit_byte((n % 10) as int))
    }
}

/// Every byte of the sequence is a decimal digit.
pub open spec fn all_digits(s: Seq<u8>) -> bool {
    forall|i: int| 0 <= i < s.len() ==> is_digit(#[trigger] s[i])
}

/// Value of a digit string, most significant first.
pub open spec fn digits_val(s: Seq<u8>) -> int
    decreases s.len(),
{
    if s.len() == 0 {
        0
    } else {
        digits_val(s.drop_last()) * 10 + (s.last() - 0x30)
    }
}

/// The digits of `n` denote `n`, are digits, and there is at least one.
pub proof fn lemma_enc_u64(n: nat)
    ensures
        all_digits(enc_u64(n)),
        digits_val(enc_u64(n)) == n,
        1 <= enc_u64(n).len(),
    decreases n,
{
    if n < 10 {
        assert(enc_u64(n) =~= seq![digit_byte(n as int)]);
        assert(enc_u64(n).drop_last() =~= Seq::<u8>::empty());
        assert(digit_byte(n as int) == 0x30 + n);
        assert(digits_val(Seq::<u8>::empty()) == 0);
        assert(enc_u64(n).last() == digit_byte(n as int));
    } else {
        lemma_enc_u64(n / 10);
        assert(digit_byte((n % 10) as int) == 0x30 + n % 10);
        let prefix = enc_u64(n / 10);
        let whole = enc_u64(n);
        assert(whole =~= prefix.push(digit_byte((n % 10) as int)));
        assert(whole.drop_last() =~= prefix);
        assert(digits_val(whole) == digits_val(whole.drop_last()) * 10 + (whole.last() - 0x30));
        assert(whole.last() == digit_byte((n % 10) as int));
        assert(digits_val(whole) == digits_val(prefix) * 10 + (n % 10));
        assert(n == (n / 10) * 10 + (n % 10)) by {
            vstd::arithmetic::div_mod::lemma_fundamental_div_mod(n as int, 10);
        }
    }
}

/// A number below `pow10(k)` has at most `k` digits.
pub proof fn lemma_enc_u64_len(n: nat, k: nat)
    requires
        k >= 1,
        n < pow10(k),
    ensures
        enc_u64(n).len() <= k,
    decreases n,
{
    if n < 10 {
    } else {
        assert(pow10(k) == 10 * pow10((k - 1) as nat));
        assert(n / 10 < pow10((k - 1) as nat));
        assert(pow10((k - 1) as nat) >= 1) by {
            lemma_pow10_pos((k - 1) as nat);
        }
        assert(k - 1 >= 1) by {
            if k == 1 {
                assert(pow10(1int as nat) == 10);
            }
        }
        lemma_enc_u64_len(n / 10, (k - 1) as nat);
    }
}

/// Ten to the `k` is positive.
pub proof fn lemma_pow10_pos(k: nat)
    ensures
        pow10(k) >= 1,
    decreases k,
{
    if k > 0 {
        lemma_pow10_pos((k - 1) as nat);
    }
}

/// A digit string of length `k` denotes a value in `[0, pow10(k))`.
pub proof fn lemma_digits_val_bound(s: Seq<u8>)
    requires
        all_digits(s),
    ensures
        0 <= digits_val(s) < pow10(s.len()),
    decreases s.len(),
{
    if s.len() == 0 {
    } else {
        assert(all_digits(s.drop_last())) by {
            assert(forall|i: int| 0 <= i < s.len() - 1 ==> is_digit(#[trigger] s.drop_last()[i]));
        }
        lemma_digits_val_bound(s.drop_last());
        assert(pow10(s.len()) == 10 * pow10((s.len() - 1) as nat));
        assert(0x30 <= s.last() <= 0x39);
    }
}

/// End of the run of decimal digits beginning at `i`.
pub open spec fn digits_end(s: Seq<u8>, i: int) -> int
    decreases s.len() - i
        when 0 <= i <= s.len()
{
    if i < s.len() && is_digit(s[i]) {
        digits_end(s, i + 1)
    } else {
        i
    }
}

/// `digits_end` finds exactly the end of a maximal digit run.
pub proof fn lemma_digits_end_of_run(s: Seq<u8>, i: int, e: int)
    requires
        0 <= i <= e <= s.len(),
        forall|j: int| i <= j < e ==> is_digit(#[trigger] s[j]),
        e == s.len() || !is_digit(s[e]),
    ensures
        digits_end(s, i) == e,
    decreases e - i,
{
    if i < e {
        lemma_digits_end_of_run(s, i + 1, e);
    }
}

/// Basic bounds of `digits_end`.
pub proof fn lemma_digits_end_bounds(s: Seq<u8>, i: int)
    requires
        0 <= i <= s.len(),
    ensures
        i <= digits_end(s, i) <= s.len(),
        forall|j: int| i <= j < digits_end(s, i) ==> is_digit(#[trigger] s[j]),
        digits_end(s, i) == s.len() || !is_digit(s[digits_end(s, i)]),
    decreases s.len() - i,
{
    if i < s.len() && is_digit(s[i]) {
        lemma_digits_end_bounds(s, i + 1);
    }
}

/// Parse of an unsigned decimal number: the maximal digit run at `i`, of
/// length one to eighteen, and its value.
pub open spec fn p_u64(s: Seq<u8>, i: int) -> Option<(int, int)>
    recommends
        0 <= i <= s.len(),
{
    let e = digits_end(s, i);
    if i < e && e - i <= 18 {
        Option::Some((digits_val(s.subrange(i, e)), e))
    } else {
        Option::None
    }
}

/// Parsing the encoding of `n` (followed by a non-digit or the end) gives
/// back `n`.
pub proof fn lemma_parse_enc_u64(s: Seq<u8>, i: int, n: nat)
    requires
        0 <= i <= s.len(),
        n < pow10(18),
        match_at(s, i, enc_u64(n)),
        i + enc_u64(n).len() == s.len() || !is_digit(s[i + enc_u64(n).len()]),
    ensures
        p_u64(s, i) == Option::Some((n as int, i + enc_u64(n).len())),
{
    let d = enc_u64(n);
    let e = i + d.len();
    lemma_enc_u64(n);
    lemma_enc_u64_len(n, 18);
    assert(s.subrange(i, e) == d);
    assert forall|j: int| i <= j < e implies is_digit(#[trigger] s[j]) by {
        assert(s.subrange(i, e)[j - i] == s[j]);
        assert(is_digit(d[j - i]));
    }
    lemma_digits_end_of_run(s, i, e);
}

/// Appends the decimal digits of `n`.
pub fn encode_u64(out: &mut Vec<u8>, n: u64)
    ensures
        final(out)@ == old(out)@ + enc_u64(n as nat),
    decreases n,
{
    if n < 10 {
        out.push(0x30 + (n as u8));
        proof {
            assert(out@ =~= old(out)@ + enc_u64(n as nat));
        }
    } else {
        encode_u64(out, n / 10);
        out.push(0x30 + ((n % 10) as u8));
        proof {
            assert(out@ =~= old(out)@ + enc_u64(n as nat));
        }
    }
}

/// Reads the maximal digit run at `pos`, up to eighteen digits.
pub fn parse_u64(s: &Vec<u8>, pos: usize) -> (r: Option<(u64, usize)>)
    requires
        pos <= s@.len(),
    ensures
        match r {
            Option::Some((v, e)) => p_u64(s@, pos as int) == Option::Some((v as int, e as int)),
            Option::None => p_u64(s@, pos as int) is None,
        },
{
    proof {
        assert(s@.len() == s.len());
        lemma_digits_end_bounds(s@, pos as int);
    }
    let ghost end = digits_end(s@, pos as int);
    let mut j: usize = pos;
    let mut val: u64 = 0;
    while j < s.len() && s[j] >= 0x30 && s[j] <= 0x39
        invariant
            pos <= j <= s@.len(),
            s@.len() <= usize::MAX,
            j <= end,
            end == digits_end(s@, pos as int),
            pos <= end <= s@.len(),
            forall|k: int| pos <= k < end ==> is_digit(#[trigger] s@[k]),
            end == s@.len() || !is_digit(s@[end]),
            j - pos <= 18,
            val == digits_val(s@.subrange(pos as int, j as int)),
            0 <= val < pow10((j - pos) as nat),
        decreases s@.len() - j,
    {
        proof {
            if j == end {
                assert(is_digit(s@[end]));
                assert(false);
            }
        }
        if j - pos == 18 {
            // Nineteen or more digits: out of range.
            proof {
                assert(end - pos > 18);
            }
            return None;
        }
        let d = s[j] - 0x30;
        proof {
            lemma_pow10_pos((j - pos) as nat);
            assert(pow10((j + 1 - pos) as nat) == 10 * pow10((j - pos) as nat));
            assert(pow10(18) == 1000000000000000000) by {
                lemma_pow10_18();
            }
            assert(pow10((j - pos) as nat) <= pow10(18)) by {
                lemma_pow10_mono((j - pos) as nat, 18);
            }
            assert(val * 10 + d <= (pow10((j - pos) as nat) - 1) * 10 + 9);
        }
        val = val * 10 + (d as u64);
        proof {
            assert(s@.subrange(pos as int, j + 1).drop_last() =~= s@.subrange(
                pos as int,
                j as int,
            ));
            assert(s@.subrange(pos as int, j + 1).last() == s@[j as int]);
        }
        j += 1;
    }
    proof {
        assert(j == end) by {
            if j < end {
                assert(is_digit(s@[j as int]));
            }
        }
    }
    if j == pos {
        return None;
    }
    Some((val, j))
}

/// Ten to the eighteenth, spelled out.
pub proof fn lemma_pow10_18()
    ensures
        pow10(18) == 1000000000000000000,
{
    assert(pow10(18) == 1000000000000000000) by {
        reveal_with_fuel(pow10, 19);
    }
}

/// `pow10` is monotone.
pub proof fn lemma_pow10_mono(a: nat, b: nat)
    requires
        a <= b,
    ensures
        pow10(a) <= pow10(b),
    decreases b,
{
    if a < b {
        lemma_pow10_mono(a, (b - 1) as nat);
        lemma_pow10_pos((b - 1) as nat);
    }
}

// ---------------------------------------------------------------------------
// Fixed-point numbers
// ---------------------------------------------------------------------------

/// Canonical encoding of a fixed-point value: optional sign, the whole
/// part in decimal, a point, and exactly two fractional digits.
pub open spec fn enc_fx(v: int) -> Seq<u8> {
    let m = if v < 0 { -v } else { v };
    let sign: Seq<u8> = if v < 0 { seq![('-' as u8)] } else { Seq::empty() };
    sign + enc_u64((m / 100) as nat) + seq![
        ('.' as u8),
        digit_byte((m % 100) / 10),
        digit_byte((m % 100) % 10),
    ]
}

/// Largest whole part the fixed-point parser accepts.
pub const FX_WHOLE_MAX: u64 = 10_000_000_000_000_000;

/// Parse of a fixed-point number at `i`: an optional sign, a whole part,
/// and an optional fraction of one or more digits, of which the first two
/// carry value (the rest are read past). Values outside the fixed-point
/// range are rejected.
pub open spec fn p_fx(s: Seq<u8>, i: int) -> Option<(int, int)>
    recommends
        0 <= i <= s.len(),
{
    let neg = i < s.len() && s[i] == ('-' as u8);
    let j: int = if neg { i + 1 } else { i };
    match p_u64(s, j) {
        Option::Some((n, k)) => {
            if n <= FX_WHOLE_MAX {
                if k < s.len() && s[k] == ('.' as u8) {
                    let e = digits_end(s, k + 1);
                    if e > k + 1 {
                        let d1 = s[k + 1] - 0x30;
                        let d2: int = if e > k + 2 { s[k + 2] - 0x30 } else { 0 };
                        let v = n * 100 + d1 * 10 + d2;
                        if v <= FX_MAX as int {
                            Option::Some((if neg { -v } else { v }, e))
                        } else {
                            Option::None
                        }
                    } else {
                        Option::None
                    }
                } else {
                    let v = n * 100;
                    if v <= FX_MAX as int {
                        Option::Some((if neg { -v } else { v }, k))
                    } else {
                        Option::None
                    }
                }
            } else {
                Option::None
            }
        },
        Option::None => Option::None,
    }
}


/// A literal that follows a number and does not start with a digit caps
/// the digit run there.
proof fn lemma_lit_follow_not_digit(s: Seq<u8>, p: int, lit: Seq<u8>)
    requires
        match_at(s, p, lit),
        lit.len() >= 1,
        !is_digit(lit[0]),
    ensures
        p < s.len(),
        !is_digit(s[p]),
{
    assert(s.subrange(p, p + lit.len())[0] == s[p]);
}

/// Parsing the encoding of a valid fixed-point value, followed by
/// anything but a digit, gives it back.
pub proof fn lemma_parse_enc_fx(s: Seq<u8>, i: int, v: int)
    requires
        0 <= i <= s.len(),
        valid_fx(v),
        match_at(s, i, enc_fx(v)),
        i + enc_fx(v).len() == s.len() || !is_digit(s[i + enc_fx(v).len()]),
    ensures
        p_fx(s, i) == Option::Some((v, i + enc_fx(v).len())),
{
    let m = if v < 0 { -v } else { v };
    let d = enc_u64((m / 100) as nat);
    let enc = enc_fx(v);
    let j: int = if v < 0 { i + 1 } else { i };
    lemma_enc_u64((m / 100) as nat);
    assert(s.subrange(i, i + enc.len()) == enc);
    assert(forall|k: int| 0 <= k < enc.len() ==> s[i + k] == #[trigger] enc[k]) by {
        assert(forall|k: int| 0 <= k < enc.len() ==> #[trigger] s.subrange(i, i + enc.len())[k] == s[i + k]);
    }
    if v < 0 {
        assert(enc[0] == ('-' as u8));
        assert(s[i] == ('-' as u8));
    } else {
        assert(enc[0] == d[0]);
        assert(is_digit(s[i]));
        assert(s[i] != ('-' as u8));
    }
    // the whole part matches at j
    assert(match_at(s, j, d)) by {
        assert(forall|k: int| 0 <= k < d.len() ==> s[j + k] == #[trigger] d[k]) by {
            if v < 0 {
                assert(forall|k: int| 0 <= k < d.len() ==> enc[1 + k] == #[trigger] d[k]);
            } else {
                assert(forall|k: int| 0 <= k < d.len() ==> enc[k] == #[trigger] d[k]);
            }
        }
        assert(s.subrange(j, j + d.len()) =~= d);
    }
    let k = j + d.len();
    assert(s[k] == ('.' as u8)) by {
        assert(enc[k - i] == ('.' as u8));
    }
    assert(!is_digit(('.' as u8)));
    assert(m / 100 < pow10(18)) by {
        lemma_pow10_18();
    }
    lemma_parse_enc_u64(s, j, (m / 100) as nat);
    let slen: int = if v < 0 { 1 } else { 0 };
    assert(s[k + 1] == digit_byte((m % 100) / 10)) by {
        assert(enc[slen + d.len() + 1] == digit_byte((m % 100) / 10));
        assert(k + 1 - i == slen + d.len() + 1);
    }
    assert(s[k + 2] == digit_byte((m % 100) % 10)) by {
        assert(enc[slen + d.len() + 2] == digit_byte((m % 100) % 10));
        assert(k + 2 - i == slen + d.len() + 2);
    }
    assert(is_digit(s[k + 1]) && is_digit(s[k + 2]));
    assert(digits_end(s, k + 1) == k + 3) by {
        lemma_digits_end_of_run(s, k + 1, k + 3);
    }
    assert((m / 100) * 100 + ((m % 100) / 10) * 10 + ((m % 100) % 10) == m) by {
        vstd::arithmetic::div_mod::lemma_fundamental_div_mod(m, 100);
        vstd::arithmetic::div_mod::lemma_fundamental_div_mod(m % 100, 10);
    }
    assert(m / 100 <= FX_WHOLE_MAX);
}

/// Appends the canonical encoding of a fixed-point value.
pub fn encode_fx(out: &mut Vec<u8>, v: Fx)
    requires
        valid_fx(v as int),
    ensures
        final(out)@ == old(out)@ + enc_fx(v as int),
{
    let m: u64 = if v < 0 {
        (-v) as u64
    } else {
        v as u64
    };
    if v < 0 {
        out.push('-' as u8);
    }
    encode_u64(out, m / 100);
    out.push('.' as u8);
    out.push(0x30 + (((m % 100) / 10) as u8));
    out.push(0x30 + ((m % 100) as u8 % 10));
    proof {
        assert((m % 100) as int % 10 == ((m as int) % 100) % 10);
        assert(out@ =~= old(out)@ + enc_fx(v as int));
    }
}

/// Position after the run of decimal digits at `pos`.
fn scan_digits(s: &Vec<u8>, pos: usize) -> (e: usize)
    requires
        pos <= s@.len(),
    ensures
        e as int == digits_end(s@, pos as int),
        pos <= e <= s@.len(),
{
    proof {
        lemma_digits_end_bounds(s@, pos as int);
        assert(s@.len() == s.len());
    }
    let ghost end = digits_end(s@, pos as int);
    let mut j: usize = pos;
    while j < s.len() && s[j] >= 0x30 && s[j] <= 0x39
        invariant
            pos <= j <= s@.len(),
            s@.len() <= usize::MAX,
            j <= end,
            end == digits_end(s@, pos as int),
            pos <= end <= s@.len(),
            forall|m: int| pos <= m < end ==> is_digit(#[trigger] s@[m]),
            end == s@.len() || !is_digit(s@[end]),
        decreases s@.len() - j,
    {
        proof {
            if j == end {
                assert(is_digit(s@[end]));
                assert(false);
            }
        }
        j += 1;
    }
    proof {
        assert(j == end) by {
            if j < end {
                assert(is_digit(s@[j as int]));
            }
        }
    }
    j
}

/// Reads a fixed-point number at `pos`.
pub fn parse_fx(s: &Vec<u8>, pos: usize) -> (r: Option<(Fx, usize)>)
    requires
        pos <= s@.len(),
    ensures
        match r {
            Option::Some((v, e)) => p_fx(s@, pos as int) == Option::Some((v as int, e as int))
                && e <= s@.len(),
            Option::None => p_fx(s@, pos as int) is None,
        },
{
    let neg = pos < s.len() && s[pos] == ('-' as u8);
    let j = if neg {
        pos + 1
    } else {
        pos
    };
    proof {
        lemma_digits_end_bounds(s@, j as int);
        assert(s@.len() == s.len());
    }
    match parse_u64(s, j) {
        Option::Some((n, k)) => {
            if n > FX_WHOLE_MAX {
                return Option::None;
            }
            proof {
                assert(k <= s@.len());
            }
            if k < s.len() && s[k] == ('.' as u8) {
                let e = scan_digits(s, k + 1);
                proof {
                    lemma_digits_end_bounds(s@, k as int + 1);
                }
                if e == k + 1 {
                    return Option::None;
                }
                proof {
                    assert(is_digit(s@[k + 1]));
                }
                let d1 = (s[k + 1] - 0x30) as u64;
                let d2: u64 = if k + 2 < e {
                    proof {
                        assert(is_digit(s@[k + 2]));
                    }
                    (s[k + 2] - 0x30) as u64
                } else {
                    0
                };
                let v = (n * 100 + d1 * 10 + d2) as i64;
                if v <= FX_MAX {
                    Option::Some((if neg { -v } else { v }, e))
                } else {
                    Option::None
                }
            } else {
                let v = (n * 100) as i64;
                if v <= FX_MAX {
                    Option::Some((if neg { -v } else { v }, k))
                } else {
                    Option::None
                }
            }
        },
        Option::None => Option::None,
    }
}


/// Every fixed-point value the parser accepts is within the supported
/// range.
pub proof fn lemma_p_fx_valid(s: Seq<u8>, i: int)
    requires
        0 <= i <= s.len(),
    ensures
        match p_fx(s, i) {
            Option::Some((v, e)) => valid_fx(v),
            Option::None => true,
        },
{
    let neg = i < s.len() && s[i] == ('-' as u8);
    let j: int = if neg {
        i + 1
    } else {
        i
    };
    match p_u64(s, j) {
        Option::Some((n, k)) => {
            lemma_digits_end_bounds(s, j);
            let e = digits_end(s, j);
            assert(all_digits(s.subrange(j, e))) by {
                assert(forall|m: int|
                    0 <= m < e - j ==> is_digit(#[trigger] s.subrange(j, e)[m]));
            }
            lemma_digits_val_bound(s.subrange(j, e));
            if n <= FX_WHOLE_MAX && k < s.len() && s[k] == ('.' as u8) {
                lemma_digits_end_bounds(s, k + 1);
            }
        },
        Option::None => {},
    }
}

// ---------------------------------------------------------------------------
// Booleans
// ---------------------------------------------------------------------------

/// Encoding of a boolean.
pub open spec fn enc_bool(b: bool) -> Seq<u8> {
    if b {
        lit_bytes("true")
    } else {
        lit_bytes("false")
    }
}

/// Parse of a boolean at `i`.
pub open spec fn p_bool(s: Seq<u8>, i: int) -> Option<(bool, int)> {
    if match_at(s, i, lit_bytes("true")) {
        Option::Some((true, i + 4))
    } else if match_at(s, i, lit_bytes("false")) {
        Option::Some((false, i + 5))
    } else {
        Option::None
    }
}

/// Parsing the encoding of a boolean gives it back.
pub proof fn lemma_parse_enc_bool(s: Seq<u8>, i: int, b: bool)
    requires
        0 <= i <= s.len(),
        match_at(s, i, enc_bool(b)),
    ensures
        p_bool(s, i) == Option::Some((b, i + enc_bool(b).len())),
{
    reveal_strlit("true");
    reveal_strlit("false");
    assert(lit_bytes("true").len() == 4);
    assert(lit_bytes("false").len() == 5);
    if b {
    } else {
        assert(s.subrange(i, i + 5) == lit_bytes("false"));
        assert(s[i] == lit_bytes("false")[0]) by {
            assert(s.subrange(i, i + 5)[0] == s[i]);
        }
        assert(s[i] == ('f' as u8));
        if match_at(s, i, lit_bytes("true")) {
            assert(s.subrange(i, i + 4)[0] == s[i]);
            assert(s[i] == ('t' as u8));
            assert(false);
        }
    }
}

/// Appends the encoding of a boolean.
pub fn encode_bool(out: &mut Vec<u8>, b: bool)
    ensures
        final(out)@ == old(out)@ + enc_bool(b),
{
    proof {
        reveal_strlit("true");
        reveal_strlit("false");
    }
    if b {
        append_lit(out, "true");
    } else {
        append_lit(out, "false");
    }
}

/// Reads a boolean at `pos`.
pub fn parse_bool(s: &Vec<u8>, pos: usize) -> (r: Option<(bool, usize)>)
    requires
        pos <= s@.len(),
    ensures
        match r {
            Option::Some((v, e)) => p_bool(s@, pos as int) == Option::Some((v, e as int)),
            Option::None => p_bool(s@, pos as int) is None,
        },
{
    proof {
        reveal_strlit("true");
        reveal_strlit("false");
        assert(s@.len() == s.len());
    }
    if crate::text::eat_lit(s, pos, "true") {
        Option::Some((true, pos + 4))
    } else if crate::text::eat_lit(s, pos, "false") {
        Option::Some((false, pos + 5))
    } else {
        Option::None
    }
}

// ---------------------------------------------------------------------------
// Strings
// ---------------------------------------------------------------------------

/// Encoding of a wire-safe byte string: the bytes between two quotes.
pub open spec fn enc_str(t: Seq<u8>) -> Seq<u8> {
    seq![('"' as u8)] + t + seq![('"' as u8)]
}

/// Position of the next quote at or after `i`, or `-1` if none remains.
pub open spec fn str_end(s: Seq<u8>, i: int) -> int
    decreases s.len() - i
        when 0 <= i <= s.len()
{
    if i >= s.len() {
        -1
    } else if s[i] == ('"' as u8) {
        i
    } else {
        str_end(s, i + 1)
    }
}

/// `str_end` finds exactly the first quote.
pub proof fn lemma_str_end_of_run(s: Seq<u8>, i: int, e: int)
    requires
        0 <= i <= e < s.len(),
        forall|j: int| i <= j < e ==> s[j] != ('"' as u8),
        s[e] == ('"' as u8),
    ensures
        str_end(s, i) == e,
    decreases e - i,
{
    if i < e {
        lemma_str_end_of_run(s, i + 1, e);
    }
}

/// Where `str_end` points, and that no earlier quote exists.
pub proof fn lemma_str_end_bounds(s: Seq<u8>, i: int)
    requires
        0 <= i <= s.len(),
    ensures
        str_end(s, i) == -1 || (i <= str_end(s, i) < s.len() && s[str_end(s, i)] == ('"' as u8)),
        str_end(s, i) == -1 ==> forall|j: int| i <= j < s.len() ==> s[j] != ('"' as u8),
        forall|j: int| i <= j < str_end(s, i) ==> s[j] != ('"' as u8),
    decreases s.len() - i,
{
    if i < s.len() && s[i] != ('"' as u8) {
        lemma_str_end_bounds(s, i + 1);
    }
}

/// Parse of a quoted string at `i`: the bytes up to the next quote.
pub open spec fn p_str(s: Seq<u8>, i: int) -> Option<(Seq<u8>, int)>
    recommends
        0 <= i <= s.len(),
{
    if i < s.len() && s[i] == ('"' as u8) {
        let e = str_end(s, i + 1);
        if e >= 0 && wire_safe(s.subrange(i + 1, e)) {
            Option::Some((s.subrange(i + 1, e), e + 1))
        } else {
            Option::None
        }
    } else {
        Option::None
    }
}

/// Parsing the encoding of a wire-safe string gives it back.
pub proof fn lemma_parse_enc_str(s: Seq<u8>, i: int, t: Seq<u8>)
    requires
        0 <= i <= s.len(),
        wire_safe(t),
        match_at(s, i, enc_str(t)),
    ensures
        p_str(s, i) == Option::Some((t, i + t.len() + 2)),
{
    let enc = enc_str(t);
    assert(s.subrange(i, i + enc.len()) == enc);
    assert(forall|k: int| 0 <= k < enc.len() ==> s[i + k] == #[trigger] enc[k]) by {
        assert(forall|k: int| 0 <= k < enc.len() ==> #[trigger] s.subrange(i, i + enc.len())[k] == s[i + k]);
    }
    assert(enc[0] == ('"' as u8));
    assert(s[i + 0] == enc[0]);
    let e = i + 1 + t.len();
    assert(s[e] == ('"' as u8)) by {
        assert(enc[e - i] == ('"' as u8));
    }
    assert forall|j: int| i + 1 <= j < e implies s[j] != ('"' as u8) by {
        assert(s[j] == enc[j - i]);
        assert(enc[j - i] == t[j - i - 1]);
        assert(crate::text::wire_safe_byte(t[j - i - 1]));
    }
    lemma_str_end_of_run(s, i + 1, e);
    assert forall|j: int| 0 <= j < t.len() implies #[trigger] s.subrange(i + 1, e)[j] == t[j] by {
        assert(s[i + 1 + j] == enc[1 + j]);
        assert(enc[1 + j] == t[j]);
    }
    assert(s.subrange(i + 1, e) =~= t);
}

/// Appends the bytes of a byte string.
pub fn append_bytes(out: &mut Vec<u8>, t: &Vec<u8>)
    ensures
        final(out)@ == old(out)@ + t@,
{
    let mut i: usize = 0;
    while i < t.len()
        invariant
            0 <= i <= t@.len(),
            out@ == old(out)@ + t@.take(i as int),
        decreases t@.len() - i,
    {
        out.push(t[i]);
        proof {
            assert(out@ =~= old(out)@ + t@.take(i + 1));
        }
        i += 1;
    }
    proof {
        assert(out@ =~= old(out)@ + t@);
    }
}

/// Appends the encoding of a wire-safe byte string.
pub fn encode_str(out: &mut Vec<u8>, t: &Vec<u8>)
    ensures
        final(out)@ == old(out)@ + enc_str(t@),
{
    out.push('"' as u8);
    append_bytes(out, t);
    out.push('"' as u8);
    proof {
        assert(out@ =~= old(out)@ + enc_str(t@));
    }
}

/// Reads a quoted string at `pos`.
pub fn parse_str(s: &Vec<u8>, pos: usize) -> (r: Option<(Vec<u8>, usize)>)
    requires
        pos <= s@.len(),
    ensures
        match r {
            Option::Some((v, e)) => p_str(s@, pos as int) == Option::Some((v@, e as int)),
            Option::None => p_str(s@, pos as int) is None,
        },
{
    proof {
        assert(s@.len() == s.len());
    }
    if !(pos < s.len() && s[pos] == ('"' as u8)) {
        return Option::None;
    }
    proof {
        lemma_str_end_bounds(s@, pos as int + 1);
    }
    let ghost e = str_end(s@, pos as int + 1);
    let mut j: usize = pos + 1;
    let mut v: Vec<u8> = Vec::new();
    while j < s.len() && s[j] != ('"' as u8)
        invariant
            pos + 1 <= j <= s@.len(),
            s@.len() <= usize::MAX,
            e == str_end(s@, pos as int + 1),
            e == -1 || (j <= e < s@.len() && s@[e] == ('"' as u8)),
            e == -1 ==> forall|k: int| pos + 1 <= k < s@.len() ==> s@[k] != ('"' as u8),
            forall|k: int| pos + 1 <= k < e ==> s@[k] != ('"' as u8),
            forall|k: int| j <= k < e ==> s@[k] != ('"' as u8) ==> true,
            v@ == s@.subrange(pos as int + 1, j as int),
        decreases s@.len() - j,
    {
        proof {
            if e != -1 && j > e {
                assert(false);
            }
        }
        v.push(s[j]);
        proof {
            assert(v@ =~= s@.subrange(pos as int + 1, j + 1));
        }
        j += 1;
        proof {
            if e == -1 {
            } else {
                if j > e {
                    assert(s@[j - 1] != ('"' as u8));
                    assert(j - 1 <= e);
                    assert(false);
                }
            }
        }
    }
    if j == s.len() {
        proof {
            if e >= 0 {
                assert(s@[e] == ('"' as u8));
                assert(false);
            }
        }
        return Option::None;
    }
    proof {
        assert(s@[j as int] == ('"' as u8));
        if e == -1 {
            assert(false);
        }
        assert(j == e) by {
            if j < e {
                assert(s@[j as int] != ('"' as u8));
            }
        }
    }
    let mut k: usize = 0;
    while k < v.len()
        invariant
            0 <= k <= v@.len(),
            pos + 1 <= e <= s@.len(),
            e == str_end(s@, pos as int + 1),
            pos < s@.len() && s@[pos as int] == ('"' as u8),
            v@ == s@.subrange(pos as int + 1, e),
            forall|m: int| 0 <= m < k ==> crate::text::wire_safe_byte(#[trigger] v@[m]),
        decreases v@.len() - k,
    {
        let b = v[k];
        if !(b >= 0x20 && b != ('"' as u8) && b != ('\\' as u8)) {
            assert(!crate::text::wire_safe_byte(v@[k as int]));
            assert(!wire_safe(v@));
            return Option::None;
        }
        k += 1;
    }
    assert(wire_safe(v@));
    Option::Some((v, j + 1))
}

// ---------------------------------------------------------------------------
// Concatenation splitting
// ---------------------------------------------------------------------------

/// A match of a concatenation splits into a match of each part.
pub proof fn lemma_match_concat(s: Seq<u8>, i: int, a: Seq<u8>, b: Seq<u8>)
    requires
        match_at(s, i, a + b),
    ensures
        match_at(s, i, a),
        match_at(s, i + a.len(), b),
{
    let whole = a + b;
    assert(forall|k: int| 0 <= k < whole.len() ==> s[i + k] == #[trigger] whole[k]) by {
        assert(forall|k: int|
            0 <= k < whole.len() ==> #[trigger] s.subrange(i, i + whole.len())[k] == s[i + k]);
    }
    assert forall|k: int| 0 <= k < a.len() implies #[trigger] s.subrange(i, i + a.len())[k]
        == a[k] by {
        assert(s[i + k] == whole[k]);
        assert(whole[k] == a[k]);
    }
    assert(s.subrange(i, i + a.len()) =~= a);
    assert forall|k: int|
        0 <= k < b.len() implies #[trigger] s.subrange(i + a.len(), i + a.len() + b.len())[k]
        == b[k] by {
        assert(s[i + a.len() + k] == whole[a.len() + k]);
        assert(whole[a.len() + k] == b[k]);
    }
    assert(s.subrange(i + a.len(), i + a.len() + b.len()) =~= b);
}

/// Parse of a fixed literal.
pub open spec fn p_lit(s: Seq<u8>, i: int, lit: Seq<u8>) -> Option<int> {
    if match_at(s, i, lit) {
        Option::Some(i + lit.len())
    } else {
        Option::None
    }
}

// ---------------------------------------------------------------------------
// Grids
// ---------------------------------------------------------------------------

/// Encoding of a non-empty run of booleans, comma separated.
pub open spec fn enc_bools(r: Seq<bool>) -> Seq<u8>
    decreases r.len(),
{
    if r.len() <= 1 {
        if r.len() == 0 {
            Seq::empty()
        } else {
            enc_bool(r[0])
        }
    } else {
        enc_bool(r[0]) + seq![(',' as u8)] + enc_bools(r.drop_first())
    }
}

/// Encoding of one grid row.
pub open spec fn enc_row(r: Seq<bool>) -> Seq<u8> {
    seq![('[' as u8)] + enc_bools(r) + seq![(']' as u8)]
}

/// Encoding of a non-empty run of rows, comma separated.
pub open spec fn enc_rows(g: Seq<Seq<bool>>) -> Seq<u8>
    decreases g.len(),
{
    if g.len() <= 1 {
        if g.len() == 0 {
            Seq::empty()
        } else {
            enc_row(g[0])
        }
    } else {
        enc_row(g[0]) + seq![(',' as u8)] + enc_rows(g.drop_first())
    }
}

/// Encoding of a whole grid.
pub open spec fn enc_grid(g: Seq<Seq<bool>>) -> Seq<u8> {
    seq![('[' as u8)] + enc_rows(g) + seq![(']' as u8)]
}

/// Encoding of an optional grid.
pub open spec fn enc_opt_grid(g: Option<Seq<Seq<bool>>>) -> Seq<u8> {
    match g {
        Option::Some(rows) => enc_grid(rows),
        Option::None => lit_bytes("null"),
    }
}

/// Encoding of an optional string.
pub open spec fn enc_opt_str(t: Option<Seq<u8>>) -> Seq<u8> {
    match t {
        Option::Some(b) => enc_str(b),
        Option::None => lit_bytes("null"),
    }
}

/// Parse of a comma-separated run of booleans.
pub open spec fn p_bools(s: Seq<u8>, i: int) -> Option<(Seq<bool>, int)>
    decreases s.len() - i
        when 0 <= i <= s.len()
{
    match p_bool(s, i) {
        Option::Some((b, j)) => {
            if j < s.len() && s[j] == (',' as u8) {
                match p_bools(s, j + 1) {
                    Option::Some((r, k)) => Option::Some((seq![b] + r, k)),
                    Option::None => Option::None,
                }
            } else {
                Option::Some((seq![b], j))
            }
        },
        Option::None => Option::None,
    }
}

/// A successful boolean-run parse moves forward and stays in bounds.
pub proof fn lemma_p_bools_advances(s: Seq<u8>, i: int)
    requires
        0 <= i <= s.len(),
    ensures
        match p_bools(s, i) {
            Option::Some((r, k)) => i < k <= s.len(),
            Option::None => true,
        },
    decreases s.len() - i,
{
    reveal_strlit("true");
    reveal_strlit("false");
    match p_bool(s, i) {
        Option::Some((b, j)) => {
            assert(i < j <= s.len());
            if j < s.len() && s[j] == (',' as u8) {
                lemma_p_bools_advances(s, j + 1);
            }
        },
        Option::None => {},
    }
}

/// Parse of one grid row.
pub open spec fn p_row(s: Seq<u8>, i: int) -> Option<(Seq<bool>, int)> {
    if i < s.len() && s[i] == ('[' as u8) {
        if i + 1 < s.len() && s[i + 1] == (']' as u8) {
            Option::Some((Seq::empty(), i + 2))
        } else {
            match p_bools(s, i + 1) {
                Option::Some((r, j)) => {
                    if j < s.len() && s[j] == (']' as u8) {
                        Option::Some((r, j + 1))
                    } else {
                        Option::None
                    }
                },
                Option::None => Option::None,
            }
        }
    } else {
        Option::None
    }
}

/// A successful row parse moves forward and stays in bounds.
pub proof fn lemma_p_row_advances(s: Seq<u8>, i: int)
    requires
        0 <= i <= s.len(),
    ensures
        match p_row(s, i) {
            Option::Some((r, k)) => i < k <= s.len(),
            Option::None => true,
        },
{
    if i < s.len() && s[i] == ('[' as u8) {
        lemma_p_bools_advances(s, i + 1);
    }
}

/// Parse of a comma-separated run of rows.
pub open spec fn p_rows(s: Seq<u8>, i: int) -> Option<(Seq<Seq<bool>>, int)>
    decreases s.len() - i
        when 0 <= i <= s.len()
{
    match p_row(s, i) {
        Option::Some((r, j)) => {
            if j < s.len() && s[j] == (',' as u8) {
                proof {
                    lemma_p_row_advances(s, i);
                }
                match p_rows(s, j + 1) {
                    Option::Some((g, k)) => Option::Some((seq![r] + g, k)),
                    Option::None => Option::None,
                }
            } else {
                Option::Some((seq![r], j))
            }
        },
        Option::None => Option::None,
    }
}

/// Parse of a whole grid.
pub open spec fn p_grid(s: Seq<u8>, i: int) -> Option<(Seq<Seq<bool>>, int)> {
    if i < s.len() && s[i] == ('[' as u8) {
        if i + 1 < s.len() && s[i + 1] == (']' as u8) {
            Option::Some((Seq::empty(), i + 2))
        } else {
            match p_rows(s, i + 1) {
                Option::Some((g, j)) => {
                    if j < s.len() && s[j] == (']' as u8) {
                        Option::Some((g, j + 1))
                    } else {
                        Option::None
                    }
                },
                Option::None => Option::None,
            }
        }
    } else {
        Option::None
    }
}

/// Parse of an optional grid.
pub open spec fn p_opt_grid(s: Seq<u8>, i: int) -> Option<(Option<Seq<Seq<bool>>>, int)> {
    if match_at(s, i, lit_bytes("null")) {
        Option::Some((Option::None, i + 4))
    } else {
        match p_grid(s, i) {
            Option::Some((g, j)) => Option::Some((Option::Some(g), j)),
            Option::None => Option::None,
        }
    }
}

/// Parse of an optional string.
pub open spec fn p_opt_str(s: Seq<u8>, i: int) -> Option<(Option<Seq<u8>>, int)> {
    if match_at(s, i, lit_bytes("null")) {
        Option::Some((Option::None, i + 4))
    } else {
        match p_str(s, i) {
            Option::Some((t, j)) => Option::Some((Option::Some(t), j)),
            Option::None => Option::None,
        }
    }
}

/// Parsing the encoding of a non-empty boolean run gives it back, provided
/// no comma follows it.
pub proof fn lemma_parse_enc_bools(s: Seq<u8>, i: int, r: Seq<bool>)
    requires
        0 <= i <= s.len(),
        r.len() >= 1,
        match_at(s, i, enc_bools(r)),
        i + enc_bools(r).len() == s.len() || s[i + enc_bools(r).len()] != (',' as u8),
    ensures
        p_bools(s, i) == Option::Some((r, i + enc_bools(r).len())),
    decreases r.len(),
{
    reveal_strlit("true");
    reveal_strlit("false");
    if r.len() == 1 {
        lemma_parse_enc_bool(s, i, r[0]);
        let j = i + enc_bool(r[0]).len();
        if j < s.len() && s[j] == (',' as u8) {
            assert(false);
        }
        assert(seq![r[0]] =~= r);
    } else {
        let head = enc_bool(r[0]) + seq![(',' as u8)];
        let tail = enc_bools(r.drop_first());
        assert(enc_bools(r) == head + tail);
        lemma_match_concat(s, i, head, tail);
        lemma_match_concat(s, i, enc_bool(r[0]), seq![(',' as u8)]);
        lemma_parse_enc_bool(s, i, r[0]);
        let j = i + enc_bool(r[0]).len();
        assert(s[j] == (',' as u8)) by {
            assert(s.subrange(j, j + 1) == seq![(',' as u8)]);
            assert(s.subrange(j, j + 1)[0] == s[j]);
        }
        lemma_parse_enc_bools(s, j + 1, r.drop_first());
        assert(seq![r[0]] + r.drop_first() =~= r);
    }
}

/// Parsing the encoding of a row gives it back.
pub proof fn lemma_parse_enc_row(s: Seq<u8>, i: int, r: Seq<bool>)
    requires
        0 <= i <= s.len(),
        match_at(s, i, enc_row(r)),
    ensures
        p_row(s, i) == Option::Some((r, i + enc_row(r).len())),
{
    reveal_strlit("true");
    reveal_strlit("false");
    let enc = enc_row(r);
    assert(forall|k: int| 0 <= k < enc.len() ==> s[i + k] == #[trigger] enc[k]) by {
        assert(forall|k: int|
            0 <= k < enc.len() ==> #[trigger] s.subrange(i, i + enc.len())[k] == s[i + k]);
    }
    assert(enc[0] == ('[' as u8));
    assert(s[i] == enc[0]);
    if r.len() == 0 {
        assert(enc[1] == (']' as u8));
        assert(s[i + 1] == enc[1]);
    } else {
        let body = enc_bools(r);
        assert(body.len() >= 1) by {
            lemma_enc_bools_len(r);
        }
        assert(enc[1] == body[0]);
        assert(body[0] == ('t' as u8) || body[0] == ('f' as u8)) by {
            lemma_enc_bools_first(r);
        }
        assert(s[i + 1] != (']' as u8));
        lemma_match_concat(s, i, seq![('[' as u8)] + body, seq![(']' as u8)]);
        lemma_match_concat(s, i, seq![('[' as u8)], body);
        let close = i + 1 + body.len();
        assert(s[close] == (']' as u8)) by {
            assert(s.subrange(close, close + 1) == seq![(']' as u8)]);
            assert(s.subrange(close, close + 1)[0] == s[close]);
        }
        lemma_parse_enc_bools(s, i + 1, r);
    }
}

/// A non-empty boolean run encodes to at least one byte, starting with a
/// letter.
pub proof fn lemma_enc_bools_len(r: Seq<bool>)
    requires
        r.len() >= 1,
    ensures
        enc_bools(r).len() >= 1,
{
    reveal_strlit("true");
    reveal_strlit("false");
}

/// First byte of a non-empty boolean run.
pub proof fn lemma_enc_bools_first(r: Seq<bool>)
    requires
        r.len() >= 1,
    ensures
        enc_bools(r)[0] == ('t' as u8) || enc_bools(r)[0] == ('f' as u8),
{
    reveal_strlit("true");
    reveal_strlit("false");
    if r.len() == 1 {
        assert(enc_bools(r) == enc_bool(r[0]));
    } else {
        assert(enc_bools(r) == enc_bool(r[0]) + seq![(',' as u8)] + enc_bools(r.drop_first()));
        assert(enc_bools(r)[0] == enc_bool(r[0])[0]);
    }
}

/// Parsing the encoding of a non-empty row run gives it back, provided no
/// comma follows it.
pub proof fn lemma_parse_enc_rows(s: Seq<u8>, i: int, g: Seq<Seq<bool>>)
    requires
        0 <= i <= s.len(),
        g.len() >= 1,
        match_at(s, i, enc_rows(g)),
        i + enc_rows(g).len() == s.len() || s[i + enc_rows(g).len()] != (',' as u8),
    ensures
        p_rows(s, i) == Option::Some((g, i + enc_rows(g).len())),
    decreases g.len(),
{
    if g.len() == 1 {
        assert(enc_rows(g) == enc_row(g[0]));
        lemma_parse_enc_row(s, i, g[0]);
        let j = i + enc_row(g[0]).len();
        if j < s.len() && s[j] == (',' as u8) {
            assert(false);
        }
        assert(seq![g[0]] =~= g);
    } else {
        let head = enc_row(g[0]) + seq![(',' as u8)];
        let tail = enc_rows(g.drop_first());
        assert(enc_rows(g) == head + tail);
        lemma_match_concat(s, i, head, tail);
        lemma_match_concat(s, i, enc_row(g[0]), seq![(',' as u8)]);
        lemma_parse_enc_row(s, i, g[0]);
        let j = i + enc_row(g[0]).len();
        assert(s[j] == (',' as u8)) by {
            assert(s.subrange(j, j + 1) == seq![(',' as u8)]);
            assert(s.subrange(j, j + 1)[0] == s[j]);
        }
        lemma_parse_enc_rows(s, j + 1, g.drop_first());
        assert(seq![g[0]] + g.drop_first() =~= g);
    }
}

/// Parsing the encoding of a grid gives it back.
pub proof fn lemma_parse_enc_grid(s: Seq<u8>, i: int, g: Seq<Seq<bool>>)
    requires
        0 <= i <= s.len(),
        match_at(s, i, enc_grid(g)),
    ensures
        p_grid(s, i) == Option::Some((g, i + enc_grid(g).len())),
{
    let enc = enc_grid(g);
    assert(forall|k: int| 0 <= k < enc.len() ==> s[i + k] == #[trigger] enc[k]) by {
        assert(forall|k: int|
            0 <= k < enc.len() ==> #[trigger] s.subrange(i, i + enc.len())[k] == s[i + k]);
    }
    assert(enc[0] == ('[' as u8));
    assert(s[i] == enc[0]);
    if g.len() == 0 {
        assert(enc[1] == (']' as u8));
        assert(s[i + 1] == enc[1]);
    } else {
        let body = enc_rows(g);
        assert(body.len() >= 1 && body[0] == ('[' as u8)) by {
            lemma_enc_rows_first(g);
        }
        assert(enc[1] == body[0]);
        assert(s[i + 1] != (']' as u8));
        lemma_match_concat(s, i, seq![('[' as u8)] + body, seq![(']' as u8)]);
        lemma_match_concat(s, i, seq![('[' as u8)], body);
        let close = i + 1 + body.len();
        assert(s[close] == (']' as u8)) by {
            assert(s.subrange(close, close + 1) == seq![(']' as u8)]);
            assert(s.subrange(close, close + 1)[0] == s[close]);
        }
        lemma_parse_enc_rows(s, i + 1, g);
    }
}

/// A non-empty row run encodes to bytes starting with an opening bracket.
pub proof fn lemma_enc_rows_first(g: Seq<Seq<bool>>)
    requires
        g.len() >= 1,
    ensures
        enc_rows(g).len() >= 1,
        enc_rows(g)[0] == ('[' as u8),
{
    if g.len() == 1 {
        assert(enc_rows(g) == enc_row(g[0]));
    } else {
        assert(enc_rows(g) == enc_row(g[0]) + seq![(',' as u8)] + enc_rows(g.drop_first()));
        assert(enc_rows(g)[0] == enc_row(g[0])[0]);
    }
}

/// Parsing the encoding of an optional grid gives it back.
pub proof fn lemma_parse_enc_opt_grid(s: Seq<u8>, i: int, g: Option<Seq<Seq<bool>>>)
    requires
        0 <= i <= s.len(),
        match_at(s, i, enc_opt_grid(g)),
    ensures
        p_opt_grid(s, i) == Option::Some((g, i + enc_opt_grid(g).len())),
{
    reveal_strlit("null");
    match g {
        Option::None => {},
        Option::Some(rows) => {
            assert(s[i] == ('[' as u8)) by {
                assert(s.subrange(i, i + enc_grid(rows).len())[0] == s[i]);
            }
            if match_at(s, i, lit_bytes("null")) {
                assert(s.subrange(i, i + 4)[0] == s[i]);
                assert(s[i] == ('n' as u8));
                assert(false);
            }
            lemma_parse_enc_grid(s, i, rows);
        },
    }
}

/// Parsing the encoding of an optional string gives it back.
pub proof fn lemma_parse_enc_opt_str(s: Seq<u8>, i: int, t: Option<Seq<u8>>)
    requires
        0 <= i <= s.len(),
        match t {
            Option::Some(b) => wire_safe(b),
            Option::None => true,
        },
        match_at(s, i, enc_opt_str(t)),
    ensures
        p_opt_str(s, i) == Option::Some((t, i + enc_opt_str(t).len())),
{
    reveal_strlit("null");
    match t {
        Option::None => {},
        Option::Some(b) => {
            assert(s[i] == ('"' as u8)) by {
                assert(s.subrange(i, i + enc_str(b).len())[0] == s[i]);
            }
            if match_at(s, i, lit_bytes("null")) {
                assert(s.subrange(i, i + 4)[0] == s[i]);
                assert(s[i] == ('n' as u8));
                assert(false);
            }
            lemma_parse_enc_str(s, i, b);
        },
    }
}

// ---------------------------------------------------------------------------
// Grid encoders and parsers
// ---------------------------------------------------------------------------

/// Appends the encoding of the booleans of `r` from index `from` on.
pub fn encode_bools_from(out: &mut Vec<u8>, r: &Vec<bool>, from: usize)
    requires
        from < r@.len(),
    ensures
        final(out)@ == old(out)@ + enc_bools(r@.skip(from as int)),
    decreases r@.len() - from,
{
    proof {
        assert(r@.len() == r.len());
        assert(r@.skip(from as int)[0] == r@[from as int]);
        assert(r@.skip(from as int).drop_first() =~= r@.skip(from as int + 1));
    }
    encode_bool(out, r[from]);
    if from + 1 < r.len() {
        out.push(',' as u8);
        encode_bools_from(out, r, from + 1);
        proof {
            assert(out@ =~= old(out)@ + enc_bools(r@.skip(from as int)));
        }
    } else {
        proof {
            assert(r@.skip(from as int).len() == 1);
            assert(out@ =~= old(out)@ + enc_bools(r@.skip(from as int)));
        }
    }
}

/// Appends the encoding of one grid row.
pub fn encode_row(out: &mut Vec<u8>, r: &Vec<bool>)
    ensures
        final(out)@ == old(out)@ + enc_row(r@),
{
    out.push('[' as u8);
    if r.len() > 0 {
        encode_bools_from(out, r, 0);
        proof {
            assert(r@.skip(0) =~= r@);
        }
    } else {
        proof {
            assert(enc_bools(r@).len() == 0);
        }
    }
    out.push(']' as u8);
    proof {
        assert(out@ =~= old(out)@ + enc_row(r@));
    }
}

/// Appends the encoding of the rows of `g` from index `from` on.
pub fn encode_rows_from(out: &mut Vec<u8>, g: &Vec<Vec<bool>>, from: usize)
    requires
        from < g@.len(),
    ensures
        final(out)@ == old(out)@ + enc_rows(g.deep_view().skip(from as int)),
    decreases g@.len() - from,
{
    proof {
        assert(g@.len() == g.len());
        assert(g.deep_view().skip(from as int)[0] == g@[from as int]@);
        assert(g.deep_view().skip(from as int).drop_first() =~= g.deep_view().skip(
            from as int + 1,
        ));
    }
    encode_row(out, &g[from]);
    if from + 1 < g.len() {
        out.push(',' as u8);
        encode_rows_from(out, g, from + 1);
        proof {
            assert(out@ =~= old(out)@ + enc_rows(g.deep_view().skip(from as int)));
        }
    } else {
        proof {
            assert(g.deep_view().skip(from as int).len() == 1);
            assert(out@ =~= old(out)@ + enc_rows(g.deep_view().skip(from as int)));
        }
    }
}

/// Appends the encoding of a whole grid.
pub fn encode_grid(out: &mut Vec<u8>, g: &Vec<Vec<bool>>)
    ensures
        final(out)@ == old(out)@ + enc_grid(g.deep_view()),
{
    out.push('[' as u8);
    if g.len() > 0 {
        encode_rows_from(out, g, 0);
        proof {
            assert(g.deep_view().skip(0) =~= g.deep_view());
        }
    } else {
        proof {
            assert(enc_rows(g.deep_view()).len() == 0);
        }
    }
    out.push(']' as u8);
    proof {
        assert(out@ =~= old(out)@ + enc_grid(g.deep_view()));
    }
}

/// Appends the encoding of an optional grid.
pub fn encode_opt_grid(out: &mut Vec<u8>, g: &Option<Vec<Vec<bool>>>)
    ensures
        final(out)@ == old(out)@ + enc_opt_grid(opt_grid_view(*g)),
{
    proof {
        reveal_strlit("null");
    }
    match g {
        Option::Some(rows) => {
            encode_grid(out, rows);
        },
        Option::None => {
            append_lit(out, "null");
        },
    }
}

/// Appends the encoding of an optional string.
pub fn encode_opt_str(out: &mut Vec<u8>, t: &Option<Vec<u8>>)
    ensures
        final(out)@ == old(out)@ + enc_opt_str(opt_view(*t)),
{
    proof {
        reveal_strlit("null");
    }
    match t {
        Option::Some(b) => {
            encode_str(out, b);
        },
        Option::None => {
            append_lit(out, "null");
        },
    }
}

/// Reads a comma-separated run of booleans at `pos`.
pub fn parse_bools(s: &Vec<u8>, pos: usize) -> (r: Option<(Vec<bool>, usize)>)
    requires
        pos <= s@.len(),
    ensures
        match r {
            Option::Some((v, e)) => p_bools(s@, pos as int) == Option::Some((v@, e as int))
                && pos < e <= s@.len(),
            Option::None => p_bools(s@, pos as int) is None,
        },
    decreases s@.len() - pos,
{
    proof {
        reveal_strlit("true");
        reveal_strlit("false");
        assert(s@.len() == s.len());
    }
    match parse_bool(s, pos) {
        Option::None => Option::None,
        Option::Some((b, j)) => {
            proof {
                assert(pos < j <= s@.len());
            }
            if j < s.len() && s[j] == (',' as u8) {
                match parse_bools(s, j + 1) {
                    Option::Some((rest, k)) => {
                        let mut v: Vec<bool> = Vec::new();
                        v.push(b);
                        let mut rest = rest;
                        v.append(&mut rest);
                        proof {
                            assert(v@ =~= seq![b] + p_bools(s@, j + 1)->Some_0.0);
                        }
                        Option::Some((v, k))
                    },
                    Option::None => Option::None,
                }
            } else {
                let mut v: Vec<bool> = Vec::new();
                v.push(b);
                proof {
                    assert(v@ =~= seq![b]);
                }
                Option::Some((v, j))
            }
        },
    }
}

/// Reads one grid row at `pos`.
pub fn parse_row(s: &Vec<u8>, pos: usize) -> (r: Option<(Vec<bool>, usize)>)
    requires
        pos <= s@.len(),
    ensures
        match r {
            Option::Some((v, e)) => p_row(s@, pos as int) == Option::Some((v@, e as int)) && pos
                < e <= s@.len(),
            Option::None => p_row(s@, pos as int) is None,
        },
{
    proof {
        assert(s@.len() == s.len());
    }
    if !(pos < s.len() && s[pos] == ('[' as u8)) {
        return Option::None;
    }
    if pos + 1 < s.len() && s[pos + 1] == (']' as u8) {
        let v: Vec<bool> = Vec::new();
        proof {
            assert(v@ =~= Seq::<bool>::empty());
        }
        return Option::Some((v, pos + 2));
    }
    match parse_bools(s, pos + 1) {
        Option::Some((v, j)) => {
            if j < s.len() && s[j] == (']' as u8) {
                Option::Some((v, j + 1))
            } else {
                Option::None
            }
        },
        Option::None => Option::None,
    }
}

/// Reads a comma-separated run of rows at `pos`.
pub fn parse_rows(s: &Vec<u8>, pos: usize) -> (r: Option<(Vec<Vec<bool>>, usize)>)
    requires
        pos <= s@.len(),
    ensures
        match r {
            Option::Some((v, e)) => p_rows(s@, pos as int) == Option::Some((
                v.deep_view(),
                e as int,
            )) && pos < e <= s@.len(),
            Option::None => p_rows(s@, pos as int) is None,
        },
    decreases s@.len() - pos,
{
    proof {
        assert(s@.len() == s.len());
    }
    match parse_row(s, pos) {
        Option::None => Option::None,
        Option::Some((row, j)) => {
            if j < s.len() && s[j] == (',' as u8) {
                match parse_rows(s, j + 1) {
                    Option::Some((rest, k)) => {
                        let mut v: Vec<Vec<bool>> = Vec::new();
                        v.push(row);
                        let mut rest = rest;
                        v.append(&mut rest);
                        proof {
                            assert(v.deep_view() =~~= seq![p_row(s@, pos as int)->Some_0.0]
                                + p_rows(s@, j + 1)->Some_0.0);
                        }
                        Option::Some((v, k))
                    },
                    Option::None => Option::None,
                }
            } else {
                let mut v: Vec<Vec<bool>> = Vec::new();
                v.push(row);
                proof {
                    assert(v.deep_view() =~~= seq![p_row(s@, pos as int)->Some_0.0]);
                }
                Option::Some((v, j))
            }
        },
    }
}

/// Reads a whole grid at `pos`.
pub fn parse_grid(s: &Vec<u8>, pos: usize) -> (r: Option<(Vec<Vec<bool>>, usize)>)
    requires
        pos <= s@.len(),
    ensures
        match r {
            Option::Some((v, e)) => p_grid(s@, pos as int) == Option::Some((
                v.deep_view(),
                e as int,
            )) && pos < e <= s@.len(),
            Option::None => p_grid(s@, pos as int) is None,
        },
{
    proof {
        assert(s@.len() == s.len());
    }
    if !(pos < s.len() && s[pos] == ('[' as u8)) {
        return Option::None;
    }
    if pos + 1 < s.len() && s[pos + 1] == (']' as u8) {
        let v: Vec<Vec<bool>> = Vec::new();
        proof {
            assert(v.deep_view() =~~= Seq::<Seq<bool>>::empty());
        }
        return Option::Some((v, pos + 2));
    }
    match parse_rows(s, pos + 1) {
        Option::Some((v, j)) => {
            if j < s.len() && s[j] == (']' as u8) {
                Option::Some((v, j + 1))
            } else {
                Option::None
            }
        },
        Option::None => Option::None,
    }
}

/// Reads an optional grid at `pos`.
pub fn parse_opt_grid(s: &Vec<u8>, pos: usize) -> (r: Option<(Option<Vec<Vec<bool>>>, usize)>)
    requires
        pos <= s@.len(),
    ensures
        match r {
            Option::Some((v, e)) => p_opt_grid(s@, pos as int) == Option::Some((
                opt_grid_view(v),
                e as int,
            )) && e <= s@.len(),
            Option::None => p_opt_grid(s@, pos as int) is None,
        },
{
    proof {
        reveal_strlit("null");
        assert(s@.len() == s.len());
    }
    if crate::text::eat_lit(s, pos, "null") {
        return Option::Some((Option::None, pos + 4));
    }
    match parse_grid(s, pos) {
        Option::Some((g, j)) => Option::Some((Option::Some(g), j)),
        Option::None => Option::None,
    }
}

/// Reads an optional string at `pos`.
pub fn parse_opt_str(s: &Vec<u8>, pos: usize) -> (r: Option<(Option<Vec<u8>>, usize)>)
    requires
        pos <= s@.len(),
    ensures
        match r {
            Option::Some((v, e)) => p_opt_str(s@, pos as int) == Option::Some((
                opt_view(v),
                e as int,
            )) && e <= s@.len(),
            Option::None => p_opt_str(s@, pos as int) is None,
        },
{
    proof {
        reveal_strlit("null");
        assert(s@.len() == s.len());
    }
    if crate::text::eat_lit(s, pos, "null") {
        return Option::Some((Option::None, pos + 4));
    }
    match parse_str(s, pos) {
        Option::Some((t, j)) => {
            proof {
                lemma_str_end_bounds(s@, pos as int + 1);
            }
            Option::Some((Option::Some(t), j))
        },
        Option::None => Option::None,
    }
}

// ---------------------------------------------------------------------------
// Objects
// ---------------------------------------------------------------------------

/// Reads a fixed ASCII literal at `pos` and returns the position after it.
pub fn expect_lit(s: &Vec<u8>, pos: usize, lit: &str) -> (r: Option<usize>)
    requires
        lit.is_ascii(),
        lit@.len() <= usize::MAX,
    ensures
        match r {
            Option::Some(e) => p_lit(s@, pos as int, lit_bytes(lit)) == Option::Some(e as int)
                && e <= s@.len(),
            Option::None => p_lit(s@, pos as int, lit_bytes(lit)) is None,
        },
{
    broadcast use vstd::string::is_ascii_spec_bytes;

    if crate::text::eat_lit(s, pos, lit) {
        proof {
            assert(lit.spec_bytes().len() == lit@.len());
            assert(s@.len() == s.len());
        }
        Option::Some(pos + lit.len())
    } else {
        Option::None
    }
}

/// Encoding of a crosshair object.
pub open spec fn enc_crosshair(c: CrosshairView) -> Seq<u8> {
    lit_bytes("{\"enabled\":")
        + enc_bool(c.enabled)
        + lit_bytes(",\"color\":")
        + enc_str(c.color)
        + lit_bytes(",\"size\":")
        + enc_fx(c.size)
        + lit_bytes(",\"offset_x\":")
        + enc_fx(c.offset_x)
        + lit_bytes(",\"offset_y\":")
        + enc_fx(c.offset_y)
        + lit_bytes(",\"grid\":")
        + enc_opt_grid(c.grid)
        + lit_bytes(",\"crosshair_type\":")
        + enc_opt_str(c.crosshair_type)
        + lit_bytes("}")
}

/// Parse of a crosshair object at `i`.
pub open spec fn p_crosshair(s: Seq<u8>, i: int) -> Option<(CrosshairView, int)> {
    match p_lit(s, i, lit_bytes("{\"enabled\":")) {
        Option::None => Option::None,
        Option::Some(i1) => match p_bool(s, i1) {
            Option::None => Option::None,
            Option::Some((v_enabled, i2)) => {
                match p_lit(s, i2, lit_bytes(",\"color\":")) {
                    Option::None => Option::None,
                    Option::Some(i3) => match p_str(s, i3) {
                        Option::None => Option::None,
                        Option::Some((v_color, i4)) => {
                            match p_lit(s, i4, lit_bytes(",\"size\":")) {
                                Option::None => Option::None,
                                Option::Some(i5) => match p_fx(s, i5) {
                                    Option::None => Option::None,
                                    Option::Some((v_size, i6)) => {
                                        match p_lit(s, i6, lit_bytes(",\"offset_x\":")) {
                                            Option::None => Option::None,
                                            Option::Some(i7) => match p_fx(s, i7) {
                                                Option::None => Option::None,
                                                Option::Some((v_offset_x, i8)) => {
                                                    match p_lit(s, i8, lit_bytes(",\"offset_y\":")) {
                                                        Option::None => Option::None,
                                                        Option::Some(i9) => match p_fx(s, i9) {
                                                            Option::None => Option::None,
                                                            Option::Some((v_offset_y, i10)) => {
                                                                match p_lit(s, i10, lit_bytes(",\"grid\":")) {
                                                                    Option::None => Option::None,
                                                                    Option::Some(i11) => match p_opt_grid(s, i11) {
                                                                        Option::None => Option::None,
                                                                        Option::Some((v_grid, i12)) => {
                                                                            match p_lit(s, i12, lit_bytes(",\"crosshair_type\":")) {
                                                                                Option::None => Option::None,
                                                                                Option::Some(i13) => match p_opt_str(s, i13) {
                                                                                    Option::None => Option::None,
                                                                                    Option::Some((v_crosshair_type, i14)) => {
                                                                                        match p_lit(s, i14, lit_bytes("}")) {
                                                                                            Option::None => Option::None,
                                                                                            Option::Some(iend) => Option::Some((CrosshairView {
                                                                                                enabled: v_enabled,
                                                                                                color: v_color,
                                                                                                size: v_size,
                                                                                                offset_x: v_offset_x,
                                                                                                offset_y: v_offset_y,
                                                                                                grid: v_grid,
                                                                                                crosshair_type: v_crosshair_type,
                                                                                            }, iend)),
                                                                                        }
                                                                                    },
                                                                                },
                                                                            }
                                                                        },
                                                                    },
                                                                }
                                                            },
                                                        },
                                                    }
                                                },
                                            },
                                        }
                                    },
                                },
                            }
                        },
                    },
                }
            },
        },
    }
}

/// Parsing the encoding of a crosshair gives it back.
#[verifier::rlimit(100)]
pub proof fn lemma_parse_enc_crosshair(s: Seq<u8>, i: int, c: CrosshairView)
    requires
        0 <= i <= s.len(),
        valid_crosshair(c),
        match_at(s, i, enc_crosshair(c)),
    ensures
        p_crosshair(s, i) == Option::Some((c, i + enc_crosshair(c).len())),
{
    let a0 = lit_bytes("{\"enabled\":");
    let a1 = enc_bool(c.enabled);
    let a2 = lit_bytes(",\"color\":");
    let a3 = enc_str(c.color);
    let a4 = lit_bytes(",\"size\":");
    let a5 = enc_fx(c.size);
    let a6 = lit_bytes(",\"offset_x\":");
    let a7 = enc_fx(c.offset_x);
    let a8 = lit_bytes(",\"offset_y\":");
    let a9 = enc_fx(c.offset_y);
    let a10 = lit_bytes(",\"grid\":");
    let a11 = enc_opt_grid(c.grid);
    let a12 = lit_bytes(",\"crosshair_type\":");
    let a13 = enc_opt_str(c.crosshair_type);
    let a14 = lit_bytes("}");
    lemma_match_concat(s, i, a0 + a1 + a2 + a3 + a4 + a5 + a6 + a7 + a8 + a9 + a10 + a11 + a12 + a13, a14);
    lemma_match_concat(s, i, a0 + a1 + a2 + a3 + a4 + a5 + a6 + a7 + a8 + a9 + a10 + a11 + a12, a13);
    lemma_match_concat(s, i, a0 + a1 + a2 + a3 + a4 + a5 + a6 + a7 + a8 + a9 + a10 + a11, a12);
    lemma_match_concat(s, i, a0 + a1 + a2 + a3 + a4 + a5 + a6 + a7 + a8 + a9 + a10, a11);
    lemma_match_concat(s, i, a0 + a1 + a2 + a3 + a4 + a5 + a6 + a7 + a8 + a9, a10);
    lemma_match_concat(s, i, a0 + a1 + a2 + a3 + a4 + a5 + a6 + a7 + a8, a9);
    lemma_match_concat(s, i, a0 + a1 + a2 + a3 + a4 + a5 + a6 + a7, a8);
    lemma_match_concat(s, i, a0 + a1 + a2 + a3 + a4 + a5 + a6, a7);
    lemma_match_concat(s, i, a0 + a1 + a2 + a3 + a4 + a5, a6);
    lemma_match_concat(s, i, a0 + a1 + a2 + a3 + a4, a5);
    lemma_match_concat(s, i, a0 + a1 + a2 + a3, a4);
    lemma_match_concat(s, i, a0 + a1 + a2, a3);
    lemma_match_concat(s, i, a0 + a1, a2);
    lemma_match_concat(s, i, a0, a1);
    lemma_parse_enc_bool(s, i + a0.len(), c.enabled);
    lemma_parse_enc_str(s, i + a0.len() + a1.len() + a2.len(), c.color);
    assert(!is_digit(s[i + a0.len() + a1.len() + a2.len() + a3.len() + a4.len() + a5.len()])) by {
        reveal_strlit(",\"offset_x\":");
        lemma_lit_follow_not_digit(s, i + a0.len() + a1.len() + a2.len() + a3.len() + a4.len() + a5.len(), a6);
    }
    lemma_parse_enc_fx(s, i + a0.len() + a1.len() + a2.len() + a3.len() + a4.len(), c.size);
    assert(!is_digit(s[i + a0.len() + a1.len() + a2.len() + a3.len() + a4.len() + a5.len() + a6.len() + a7.len()])) by {
        reveal_strlit(",\"offset_y\":");
        lemma_lit_follow_not_digit(s, i + a0.len() + a1.len() + a2.len() + a3.len() + a4.len() + a5.len() + a6.len() + a7.len(), a8);
    }
    lemma_parse_enc_fx(s, i + a0.len() + a1.len() + a2.len() + a3.len() + a4.len() + a5.len() + a6.len(), c.offset_x);
    assert(!is_digit(s[i + a0.len() + a1.len() + a2.len() + a3.len() + a4.len() + a5.len() + a6.len() + a7.len() + a8.len() + a9.len()])) by {
        reveal_strlit(",\"grid\":");
        lemma_lit_follow_not_digit(s, i + a0.len() + a1.len() + a2.len() + a3.len() + a4.len() + a5.len() + a6.len() + a7.len() + a8.len() + a9.len(), a10);
    }
    lemma_parse_enc_fx(s, i + a0.len() + a1.len() + a2.len() + a3.len() + a4.len() + a5.len() + a6.len() + a7.len() + a8.len(), c.offset_y);
    lemma_parse_enc_opt_grid(s, i + a0.len() + a1.len() + a2.len() + a3.len() + a4.len() + a5.len() + a6.len() + a7.len() + a8.len() + a9.len() + a10.len(), c.grid);
    lemma_parse_enc_opt_str(s, i + a0.len() + a1.len() + a2.len() + a3.len() + a4.len() + a5.len() + a6.len() + a7.len() + a8.len() + a9.len() + a10.len() + a11.len() + a12.len(), c.crosshair_type);
    match p_crosshair(s, i) {
        Option::Some((v, e)) => {
            assert(v =~= c);
            assert(e == i + enc_crosshair(c).len());
        },
        Option::None => {
            assert(false);
        },
    }
}

/// Appends the encoding of a crosshair.
#[verifier::rlimit(100)]
pub fn encode_crosshair(out: &mut Vec<u8>, c: &OverlayCrosshairData)
    requires
        valid_crosshair(c@),
    ensures
        final(out)@ == old(out)@ + enc_crosshair(c@),
{
    proof {
        reveal_strlit("{\"enabled\":");
        reveal_strlit(",\"color\":");
        reveal_strlit(",\"size\":");
        reveal_strlit(",\"offset_x\":");
        reveal_strlit(",\"offset_y\":");
        reveal_strlit(",\"grid\":");
        reveal_strlit(",\"crosshair_type\":");
        reveal_strlit("}");
    }
    append_lit(out, "{\"enabled\":");
    encode_bool(out, c.enabled);
    append_lit(out, ",\"color\":");
    encode_str(out, &c.color);
    append_lit(out, ",\"size\":");
    encode_fx(out, c.size);
    append_lit(out, ",\"offset_x\":");
    encode_fx(out, c.offset_x);
    append_lit(out, ",\"offset_y\":");
    encode_fx(out, c.offset_y);
    append_lit(out, ",\"grid\":");
    encode_opt_grid(out, &c.grid);
    append_lit(out, ",\"crosshair_type\":");
    encode_opt_str(out, &c.crosshair_type);
    append_lit(out, "}");
    proof {
        assert(out@ =~= old(out)@ + enc_crosshair(c@));
    }
}

/// Reads a crosshair object at `pos`.
#[verifier::rlimit(100)]
pub fn parse_crosshair(s: &Vec<u8>, pos: usize) -> (r: Option<(OverlayCrosshairData, usize)>)
    requires
        pos <= s@.len(),
    ensures
        match r {
            Option::Some((c, e)) => p_crosshair(s@, pos as int) == Option::Some((c@, e as int))
                && e <= s@.len() && valid_crosshair(c@),
            Option::None => p_crosshair(s@, pos as int) is None,
        },
{
    proof {
        reveal_strlit("{\"enabled\":");
        reveal_strlit(",\"color\":");
        reveal_strlit(",\"size\":");
        reveal_strlit(",\"offset_x\":");
        reveal_strlit(",\"offset_y\":");
        reveal_strlit(",\"grid\":");
        reveal_strlit(",\"crosshair_type\":");
        reveal_strlit("}");
    }
    let i1 = match expect_lit(s, pos, "{\"enabled\":") {
        Option::Some(x) => x,
        Option::None => {
            return Option::None;
        },
    };
    let (v_enabled, i2) = match parse_bool(s, i1) {
        Option::Some(x) => x,
        Option::None => {
            return Option::None;
        },
    };
    let i3 = match expect_lit(s, i2, ",\"color\":") {
        Option::Some(x) => x,
        Option::None => {
            return Option::None;
        },
    };
    let (v_color, i4) = match parse_str(s, i3) {
        Option::Some(x) => x,
        Option::None => {
            return Option::None;
        },
    };
    let i5 = match expect_lit(s, i4, ",\"size\":") {
        Option::Some(x) => x,
        Option::None => {
            return Option::None;
        },
    };
    let (v_size, i6) = match parse_fx(s, i5) {
        Option::Some(x) => x,
        Option::None => {
            return Option::None;
        },
    };
    let i7 = match expect_lit(s, i6, ",\"offset_x\":") {
        Option::Some(x) => x,
        Option::None => {
            return Option::None;
        },
    };
    let (v_offset_x, i8) = match parse_fx(s, i7) {
        Option::Some(x) => x,
        Option::None => {
            return Option::None;
        },
    };
    let i9 = match expect_lit(s, i8, ",\"offset_y\":") {
        Option::Some(x) => x,
        Option::None => {
            return Option::None;
        },
    };
    let (v_offset_y, i10) = match parse_fx(s, i9) {
        Option::Some(x) => x,
        Option::None => {
            return Option::None;
        },
    };
    let i11 = match expect_lit(s, i10, ",\"grid\":") {
        Option::Some(x) => x,
        Option::None => {
            return Option::None;
        },
    };
    let (v_grid, i12) = match parse_opt_grid(s, i11) {
        Option::Some(x) => x,
        Option::None => {
            return Option::None;
        },
    };
    let i13 = match expect_lit(s, i12, ",\"crosshair_type\":") {
        Option::Some(x) => x,
        Option::None => {
            return Option::None;
        },
    };
    let (v_crosshair_type, i14) = match parse_opt_str(s, i13) {
        Option::Some(x) => x,
        Option::None => {
            return Option::None;
        },
    };
    let iend = match expect_lit(s, i14, "}") {
        Option::Some(x) => x,
        Option::None => {
            return Option::None;
        },
    };
    let c = OverlayCrosshairData {
        enabled: v_enabled,
        color: v_color,
        size: v_size,
        offset_x: v_offset_x,
        offset_y: v_offset_y,
        grid: v_grid,
        crosshair_type: v_crosshair_type,
    };
    proof {
        lemma_p_fx_valid(s@, i5 as int);
        lemma_p_fx_valid(s@, i7 as int);
        lemma_p_fx_valid(s@, i9 as int);
        assert(p_crosshair(s@, pos as int) == Option::Some((c@, iend as int)));
    }
    Option::Some((c, iend))
}

/// Encoding of a notification object.
pub open spec fn enc_notification(c: NotificationView) -> Seq<u8> {
    lit_bytes("{\"id\":")
        + enc_str(c.id)
        + lit_bytes(",\"title\":")
        + enc_str(c.title)
        + lit_bytes(",\"message\":")
        + enc_str(c.message)
        + lit_bytes(",\"duration\":")
        + enc_fx(c.duration)
        + lit_bytes(",\"elapsed\":")
        + enc_fx(c.elapsed)
        + lit_bytes("}")
}

/// Parse of a notification object at `i`.
pub open spec fn p_notification(s: Seq<u8>, i: int) -> Option<(NotificationView, int)> {
    match p_lit(s, i, lit_bytes("{\"id\":")) {
        Option::None => Option::None,
        Option::Some(i1) => match p_str(s, i1) {
            Option::None => Option::None,
            Option::Some((v_id, i2)) => {
                match p_lit(s, i2, lit_bytes(",\"title\":")) {
                    Option::None => Option::None,
                    Option::Some(i3) => match p_str(s, i3) {
                        Option::None => Option::None,
                        Option::Some((v_title, i4)) => {
                            match p_lit(s, i4, lit_bytes(",\"message\":")) {
                                Option::None => Option::None,
                                Option::Some(i5) => match p_str(s, i5) {
                                    Option::None => Option::None,
                                    Option::Some((v_message, i6)) => {
                                        match p_lit(s, i6, lit_bytes(",\"duration\":")) {
                                            Option::None => Option::None,
                                            Option::Some(i7) => match p_fx(s, i7) {
                                                Option::None => Option::None,
                                                Option::Some((v_duration, i8)) => {
                                                    match p_lit(s, i8, lit_bytes(",\"elapsed\":")) {
                                                        Option::None => Option::None,
                                                        Option::Some(i9) => match p_fx(s, i9) {
                                                            Option::None => Option::None,
                                                            Option::Some((v_elapsed, i10)) => {
                                                                match p_lit(s, i10, lit_bytes("}")) {
                                                                    Option::None => Option::None,
                                                                    Option::Some(iend) => Option::Some((NotificationView {
                                                                        id: v_id,
                                                                        title: v_title,
                                                                        message: v_message,
                                                                        duration: v_duration,
                                                                        elapsed: v_elapsed,
                                                                    }, iend)),
                                                                }
                                                            },
                                                        },
                                                    }
                                                },
                                            },
                                        }
                                    },
                                },
                            }
                        },
                    },
                }
            },
        },
    }
}

/// Parsing the encoding of a notification gives it back.
pub proof fn lemma_parse_enc_notification(s: Seq<u8>, i: int, c: NotificationView)
    requires
        0 <= i <= s.len(),
        valid_notification(c),
        match_at(s, i, enc_notification(c)),
    ensures
        p_notification(s, i) == Option::Some((c, i + enc_notification(c).len())),
{
    let a0 = lit_bytes("{\"id\":");
    let a1 = enc_str(c.id);
    let a2 = lit_bytes(",\"title\":");
    let a3 = enc_str(c.title);
    let a4 = lit_bytes(",\"message\":");
    let a5 = enc_str(c.message);
    let a6 = lit_bytes(",\"duration\":");
    let a7 = enc_fx(c.duration);
    let a8 = lit_bytes(",\"elapsed\":");
    let a9 = enc_fx(c.elapsed);
    let a10 = lit_bytes("}");
    lemma_match_concat(s, i, a0 + a1 + a2 + a3 + a4 + a5 + a6 + a7 + a8 + a9, a10);
    lemma_match_concat(s, i, a0 + a1 + a2 + a3 + a4 + a5 + a6 + a7 + a8, a9);
    lemma_match_concat(s, i, a0 + a1 + a2 + a3 + a4 + a5 + a6 + a7, a8);
    lemma_match_concat(s, i, a0 + a1 + a2 + a3 + a4 + a5 + a6, a7);
    lemma_match_concat(s, i, a0 + a1 + a2 + a3 + a4 + a5, a6);
    lemma_match_concat(s, i, a0 + a1 + a2 + a3 + a4, a5);
    lemma_match_concat(s, i, a0 + a1 + a2 + a3, a4);
    lemma_match_concat(s, i, a0 + a1 + a2, a3);
    lemma_match_concat(s, i, a0 + a1, a2);
    lemma_match_concat(s, i, a0, a1);
    lemma_parse_enc_str(s, i + a0.len(), c.id);
    lemma_parse_enc_str(s, i + a0.len() + a1.len() + a2.len(), c.title);
    lemma_parse_enc_str(s, i + a0.len() + a1.len() + a2.len() + a3.len() + a4.len(), c.message);
    assert(!is_digit(s[i + a0.len() + a1.len() + a2.len() + a3.len() + a4.len() + a5.len() + a6.len() + a7.len()])) by {
        reveal_strlit(",\"elapsed\":");
        lemma_lit_follow_not_digit(s, i + a0.len() + a1.len() + a2.len() + a3.len() + a4.len() + a5.len() + a6.len() + a7.len(), a8);
    }
    lemma_parse_enc_fx(s, i + a0.len() + a1.len() + a2.len() + a3.len() + a4.len() + a5.len() + a6.len(), c.duration);
    assert(!is_digit(s[i + a0.len() + a1.len() + a2.len() + a3.len() + a4.len() + a5.len() + a6.len() + a7.len() + a8.len() + a9.len()])) by {
        reveal_strlit("}");
        lemma_lit_follow_not_digit(s, i + a0.len() + a1.len() + a2.len() + a3.len() + a4.len() + a5.len() + a6.len() + a7.len() + a8.len() + a9.len(), a10);
    }
    lemma_parse_enc_fx(s, i + a0.len() + a1.len() + a2.len() + a3.len() + a4.len() + a5.len() + a6.len() + a7.len() + a8.len(), c.elapsed);
    match p_notification(s, i) {
        Option::Some((v, e)) => {
            assert(v =~= c);
            assert(e == i + enc_notification(c).len());
        },
        Option::None => {
            assert(false);
        },
    }
}

/// Appends the encoding of a notification.
pub fn encode_notification(out: &mut Vec<u8>, c: &Notification)
    requires
        valid_notification(c@),
    ensures
        final(out)@ == old(out)@ + enc_notification(c@),
{
    proof {
        reveal_strlit("{\"id\":");
        reveal_strlit(",\"title\":");
        reveal_strlit(",\"message\":");
        reveal_strlit(",\"duration\":");
        reveal_strlit(",\"elapsed\":");
        reveal_strlit("}");
    }
    append_lit(out, "{\"id\":");
    encode_str(out, &c.id);
    append_lit(out, ",\"title\":");
    encode_str(out, &c.title);
    append_lit(out, ",\"message\":");
    encode_str(out, &c.message);
    append_lit(out, ",\"duration\":");
    encode_fx(out, c.duration);
    append_lit(out, ",\"elapsed\":");
    encode_fx(out, c.elapsed);
    append_lit(out, "}");
    proof {
        assert(out@ =~= old(out)@ + enc_notification(c@));
    }
}

/// Reads a notification object at `pos`.
pub fn parse_notification(s: &Vec<u8>, pos: usize) -> (r: Option<(Notification, usize)>)
    requires
        pos <= s@.len(),
    ensures
        match r {
            Option::Some((c, e)) => p_notification(s@, pos as int) == Option::Some((c@, e as int))
                && e <= s@.len() && valid_notification(c@),
            Option::None => p_notification(s@, pos as int) is None,
        },
{
    proof {
        reveal_strlit("{\"id\":");
        reveal_strlit(",\"title\":");
        reveal_strlit(",\"message\":");
        reveal_strlit(",\"duration\":");
        reveal_strlit(",\"elapsed\":");
        reveal_strlit("}");
    }
    let i1 = match expect_lit(s, pos, "{\"id\":") {
        Option::Some(x) => x,
        Option::None => {
            return Option::None;
        },
    };
    let (v_id, i2) = match parse_str(s, i1) {
        Option::Some(x) => x,
        Option::None => {
            return Option::None;
        },
    };
    let i3 = match expect_lit(s, i2, ",\"title\":") {
        Option::Some(x) => x,
        Option::None => {
            return Option::None;
        },
    };
    let (v_title, i4) = match parse_str(s, i3) {
        Option::Some(x) => x,
        Option::None => {
            return Option::None;
        },
    };
    let i5 = match expect_lit(s, i4, ",\"message\":") {
        Option::Some(x) => x,
        Option::None => {
            return Option::None;
        },
    };
    let (v_message, i6) = match parse_str(s, i5) {
        Option::Some(x) => x,
        Option::None => {
            return Option::None;
        },
    };
    let i7 = match expect_lit(s, i6, ",\"duration\":") {
        Option::Some(x) => x,
        Option::None => {
            return Option::None;
        },
    };
    let (v_duration, i8) = match parse_fx(s, i7) {
        Option::Some(x) => x,
        Option::None => {
            return Option::None;
        },
    };
    let i9 = match expect_lit(s, i8, ",\"elapsed\":") {
        Option::Some(x) => x,
        Option::None => {
            return Option::None;
        },
    };
    let (v_elapsed, i10) = match parse_fx(s, i9) {
        Option::Some(x) => x,
        Option::None => {
            return Option::None;
        },
    };
    let iend = match expect_lit(s, i10, "}") {
        Option::Some(x) => x,
        Option::None => {
            return Option::None;
        },
    };
    let c = Notification {
        id: v_id,
        title: v_title,
        message: v_message,
        duration: v_duration,
        elapsed: v_elapsed,
    };
    proof {
        lemma_p_fx_valid(s@, i7 as int);
        lemma_p_fx_valid(s@, i9 as int);
        assert(p_notification(s@, pos as int) == Option::Some((c@, iend as int)));
    }
    Option::Some((c, iend))
}

/// Encoding of a fps object.
pub open spec fn enc_fps(c: FpsView) -> Seq<u8> {
    lit_bytes("{\"enabled\":")
        + enc_bool(c.enabled)
        + lit_bytes(",\"position\":")
        + enc_str(c.position)
        + lit_bytes(",\"text_color\":")
        + enc_str(c.text_color)
        + lit_bytes(",\"bg_color\":")
        + enc_str(c.bg_color)
        + lit_bytes(",\"bg_opacity\":")
        + enc_fx(c.bg_opacity)
        + lit_bytes(",\"size\":")
        + enc_fx(c.size)
        + lit_bytes(",\"padding\":")
        + enc_fx(c.padding)
        + lit_bytes(",\"margin\":")
        + enc_fx(c.margin)
        + lit_bytes("}")
}

/// Parse of a fps object at `i`.
pub open spec fn p_fps(s: Seq<u8>, i: int) -> Option<(FpsView, int)> {
    match p_lit(s, i, lit_bytes("{\"enabled\":")) {
        Option::None => Option::None,
        Option::Some(i1) => match p_bool(s, i1) {
            Option::None => Option::None,
            Option::Some((v_enabled, i2)) => {
                match p_lit(s, i2, lit_bytes(",\"position\":")) {
                    Option::None => Option::None,
                    Option::Some(i3) => match p_str(s, i3) {
                        Option::None => Option::None,
                        Option::Some((v_position, i4)) => {
                            match p_lit(s, i4, lit_bytes(",\"text_color\":")) {
                                Option::None => Option::None,
                                Option::Some(i5) => match p_str(s, i5) {
                                    Option::None => Option::None,
                                    Option::Some((v_text_color, i6)) => {
                                        match p_lit(s, i6, lit_bytes(",\"bg_color\":")) {
                                            Option::None => Option::None,
                                            Option::Some(i7) => match p_str(s, i7) {
                                                Option::None => Option::None,
                                                Option::Some((v_bg_color, i8)) => {
                                                    match p_lit(s, i8, lit_bytes(",\"bg_opacity\":")) {
                                                        Option::None => Option::None,
                                                        Option::Some(i9) => match p_fx(s, i9) {
                                                            Option::None => Option::None,
                                                            Option::Some((v_bg_opacity, i10)) => {
                                                                match p_lit(s, i10, lit_bytes(",\"size\":")) {
                                                                    Option::None => Option::None,
                                                                    Option::Some(i11) => match p_fx(s, i11) {
                                                                        Option::None => Option::None,
                                                                        Option::Some((v_size, i12)) => {
                                                                            match p_lit(s, i12, lit_bytes(",\"padding\":")) {
                                                                                Option::None => Option::None,
                                                                                Option::Some(i13) => match p_fx(s, i13) {
                                                                                    Option::None => Option::None,
                                                                                    Option::Some((v_padding, i14)) => {
                                                                                        match p_lit(s, i14, lit_bytes(",\"margin\":")) {
                                                                                            Option::None => Option::None,
                                                                                            Option::Some(i15) => match p_fx(s, i15) {
                                                                                                Option::None => Option::None,
                                                                                                Option::Some((v_margin, i16)) => {
                                                                                                    match p_lit(s, i16, lit_bytes("}")) {
                                                                                                        Option::None => Option::None,
                                                                                                        Option::Some(iend) => Option::Some((FpsView {
                                                                                                            enabled: v_enabled,
                                                                                                            position: v_position,
                                                                                                            text_color: v_text_color,
                                                                                                            bg_color: v_bg_color,
                                                                                                            bg_opacity: v_bg_opacity,
                                                                                                            size: v_size,
                                                                                                            padding: v_padding,
                                                                                                            margin: v_margin,
                                                                                                        }, iend)),
                                                                                                    }
                                                                                                },
                                                                                            },
                                                                                        }
                                                                                    },
                                                                                },
                                                                            }
                                                                        },
                                                                    },
                                                                }
                                                            },
                                                        },
                                                    }
                                                },
                                            },
                                        }
                                    },
                                },
                            }
                        },
                    },
                }
            },
        },
    }
}

/// Parsing the encoding of a fps gives it back.
#[verifier::rlimit(100)]
pub proof fn lemma_parse_enc_fps(s: Seq<u8>, i: int, c: FpsView)
    requires
        0 <= i <= s.len(),
        valid_fps(c),
        match_at(s, i, enc_fps(c)),
    ensures
        p_fps(s, i) == Option::Some((c, i + enc_fps(c).len())),
{
    let a0 = lit_bytes("{\"enabled\":");
    let a1 = enc_bool(c.enabled);
    let a2 = lit_bytes(",\"position\":");
    let a3 = enc_str(c.position);
    let a4 = lit_bytes(",\"text_color\":");
    let a5 = enc_str(c.text_color);
    let a6 = lit_bytes(",\"bg_color\":");
    let a7 = enc_str(c.bg_color);
    let a8 = lit_bytes(",\"bg_opacity\":");
    let a9 = enc_fx(c.bg_opacity);
    let a10 = lit_bytes(",\"size\":");
    let a11 = enc_fx(c.size);
    let a12 = lit_bytes(",\"padding\":");
    let a13 = enc_fx(c.padding);
    let a14 = lit_bytes(",\"margin\":");
    let a15 = enc_fx(c.margin);
    let a16 = lit_bytes("}");
    lemma_match_concat(s, i, a0 + a1 + a2 + a3 + a4 + a5 + a6 + a7 + a8 + a9 + a10 + a11 + a12 + a13 + a14 + a15, a16);
    lemma_match_concat(s, i, a0 + a1 + a2 + a3 + a4 + a5 + a6 + a7 + a8 + a9 + a10 + a11 + a12 + a13 + a14, a15);
    lemma_match_concat(s, i, a0 + a1 + a2 + a3 + a4 + a5 + a6 + a7 + a8 + a9 + a10 + a11 + a12 + a13, a14);
    lemma_match_concat(s, i, a0 + a1 + a2 + a3 + a4 + a5 + a6 + a7 + a8 + a9 + a10 + a11 + a12, a13);
    lemma_match_concat(s, i, a0 + a1 + a2 + a3 + a4 + a5 + a6 + a7 + a8 + a9 + a10 + a11, a12);
    lemma_match_concat(s, i, a0 + a1 + a2 + a3 + a4 + a5 + a6 + a7 + a8 + a9 + a10, a11);
    lemma_match_concat(s, i, a0 + a1 + a2 + a3 + a4 + a5 + a6 + a7 + a8 + a9, a10);
    lemma_match_concat(s, i, a0 + a1 + a2 + a3 + a4 + a5 + a6 + a7 + a8, a9);
    lemma_match_concat(s, i, a0 + a1 + a2 + a3 + a4 + a5 + a6 + a7, a8);
    lemma_match_concat(s, i, a0 + a1 + a2 + a3 + a4 + a5 + a6, a7);
    lemma_match_concat(s, i, a0 + a1 + a2 + a3 + a4 + a5, a6);
    lemma_match_concat(s, i, a0 + a1 + a2 + a3 + a4, a5);
    lemma_match_concat(s, i, a0 + a1 + a2 + a3, a4);
    lemma_match_concat(s, i, a0 + a1 + a2, a3);
    lemma_match_concat(s, i, a0 + a1, a2);
    lemma_match_concat(s, i, a0, a1);
    lemma_parse_enc_bool(s, i + a0.len(), c.enabled);
    lemma_parse_enc_str(s, i + a0.len() + a1.len() + a2.len(), c.position);
    lemma_parse_enc_str(s, i + a0.len() + a1.len() + a2.len() + a3.len() + a4.len(), c.text_color);
    lemma_parse_enc_str(s, i + a0.len() + a1.len() + a2.len() + a3.len() + a4.len() + a5.len() + a6.len(), c.bg_color);
    assert(!is_digit(s[i + a0.len() + a1.len() + a2.len() + a3.len() + a4.len() + a5.len() + a6.len() + a7.len() + a8.len() + a9.len()])) by {
        reveal_strlit(",\"size\":");
        lemma_lit_follow_not_digit(s, i + a0.len() + a1.len() + a2.len() + a3.len() + a4.len() + a5.len() + a6.len() + a7.len() + a8.len() + a9.len(), a10);
    }
    lemma_parse_enc_fx(s, i + a0.len() + a1.len() + a2.len() + a3.len() + a4.len() + a5.len() + a6.len() + a7.len() + a8.len(), c.bg_opacity);
    assert(!is_digit(s[i + a0.len() + a1.len() + a2.len() + a3.len() + a4.len() + a5.len() + a6.len() + a7.len() + a8.len() + a9.len() + a10.len() + a11.len()])) by {
        reveal_strlit(",\"padding\":");
        lemma_lit_follow_not_digit(s, i + a0.len() + a1.len() + a2.len() + a3.len() + a4.len() + a5.len() + a6.len() + a7.len() + a8.len() + a9.len() + a10.len() + a11.len(), a12);
    }
    lemma_parse_enc_fx(s, i + a0.len() + a1.len() + a2.len() + a3.len() + a4.len() + a5.len() + a6.len() + a7.len() + a8.len() + a9.len() + a10.len(), c.size);
    assert(!is_digit(s[i + a0.len() + a1.len() + a2.len() + a3.len() + a4.len() + a5.len() + a6.len() + a7.len() + a8.len() + a9.len() + a10.len() + a11.len() + a12.len() + a13.len()])) by {
        reveal_strlit(",\"margin\":");
        lemma_lit_follow_not_digit(s, i + a0.len() + a1.len() + a2.len() + a3.len() + a4.len() + a5.len() + a6.len() + a7.len() + a8.len() + a9.len() + a10.len() + a11.len() + a12.len() + a13.len(), a14);
    }
    lemma_parse_enc_fx(s, i + a0.len() + a1.len() + a2.len() + a3.len() + a4.len() + a5.len() + a6.len() + a7.len() + a8.len() + a9.len() + a10.len() + a11.len() + a12.len(), c.padding);
    assert(!is_digit(s[i + a0.len() + a1.len() + a2.len() + a3.len() + a4.len() + a5.len() + a6.len() + a7.len() + a8.len() + a9.len() + a10.len() + a11.len() + a12.len() + a13.len() + a14.len() + a15.len()])) by {
        reveal_strlit("}");
        lemma_lit_follow_not_digit(s, i + a0.len() + a1.len() + a2.len() + a3.len() + a4.len() + a5.len() + a6.len() + a7.len() + a8.len() + a9.len() + a10.len() + a11.len() + a12.len() + a13.len() + a14.len() + a15.len(), a16);
    }
    lemma_parse_enc_fx(s, i + a0.len() + a1.len() + a2.len() + a3.len() + a4.len() + a5.len() + a6.len() + a7.len() + a8.len() + a9.len() + a10.len() + a11.len() + a12.len() + a13.len() + a14.len(), c.margin);
    match p_fps(s, i) {
        Option::Some((v, e)) => {
            assert(v =~= c);
            assert(e == i + enc_fps(c).len());
        },
        Option::None => {
            assert(false);
        },
    }
}

/// Appends the encoding of a fps.
#[verifier::rlimit(100)]
pub fn encode_fps(out: &mut Vec<u8>, c: &FpsConfig)
    requires
        valid_fps(c@),
    ensures
        final(out)@ == old(out)@ + enc_fps(c@),
{
    proof {
        reveal_strlit("{\"enabled\":");
        reveal_strlit(",\"position\":");
        reveal_strlit(",\"text_color\":");
        reveal_strlit(",\"bg_color\":");
        reveal_strlit(",\"bg_opacity\":");
        reveal_strlit(",\"size\":");
        reveal_strlit(",\"padding\":");
        reveal_strlit(",\"margin\":");
        reveal_strlit("}");
    }
    append_lit(out, "{\"enabled\":");
    encode_bool(out, c.enabled);
    append_lit(out, ",\"position\":");
    encode_str(out, &c.position);
    append_lit(out, ",\"text_color\":");
    encode_str(out, &c.text_color);
    append_lit(out, ",\"bg_color\":");
    encode_str(out, &c.bg_color);
    append_lit(out, ",\"bg_opacity\":");
    encode_fx(out, c.bg_opacity);
    append_lit(out, ",\"size\":");
    encode_fx(out, c.size);
    append_lit(out, ",\"padding\":");
    encode_fx(out, c.padding);
    append_lit(out, ",\"margin\":");
    encode_fx(out, c.margin);
    append_lit(out, "}");
    proof {
        assert(out@ =~= old(out)@ + enc_fps(c@));
    }
}

/// Reads a fps object at `pos`.
#[verifier::rlimit(100)]
pub fn parse_fps(s: &Vec<u8>, pos: usize) -> (r: Option<(FpsConfig, usize)>)
    requires
        pos <= s@.len(),
    ensures
        match r {
            Option::Some((c, e)) => p_fps(s@, pos as int) == Option::Some((c@, e as int))
                && e <= s@.len() && valid_fps(c@),
            Option::None => p_fps(s@, pos as int) is None,
        },
{
    proof {
        reveal_strlit("{\"enabled\":");
        reveal_strlit(",\"position\":");
        reveal_strlit(",\"text_color\":");
        reveal_strlit(",\"bg_color\":");
        reveal_strlit(",\"bg_opacity\":");
        reveal_strlit(",\"size\":");
        reveal_strlit(",\"padding\":");
        reveal_strlit(",\"margin\":");
        reveal_strlit("}");
    }
    let i1 = match expect_lit(s, pos, "{\"enabled\":") {
        Option::Some(x) => x,
        Option::None => {
            return Option::None;
        },
    };
    let (v_enabled, i2) = match parse_bool(s, i1) {
        Option::Some(x) => x,
        Option::None => {
            return Option::None;
        },
    };
    let i3 = match expect_lit(s, i2, ",\"position\":") {
        Option::Some(x) => x,
        Option::None => {
            return Option::None;
        },
    };
    let (v_position, i4) = match parse_str(s, i3) {
        Option::Some(x) => x,
        Option::None => {
            return Option::None;
        },
    };
    let i5 = match expect_lit(s, i4, ",\"text_color\":") {
        Option::Some(x) => x,
        Option::None => {
            return Option::None;
        },
    };
    let (v_text_color, i6) = match parse_str(s, i5) {
        Option::Some(x) => x,
        Option::None => {
            return Option::None;
        },
    };
    let i7 = match expect_lit(s, i6, ",\"bg_color\":") {
        Option::Some(x) => x,
        Option::None => {
            return Option::None;
        },
    };
    let (v_bg_color, i8) = match parse_str(s, i7) {
        Option::Some(x) => x,
        Option::None => {
            return Option::None;
        },
    };
    let i9 = match expect_lit(s, i8, ",\"bg_opacity\":") {
        Option::Some(x) => x,
        Option::None => {
            return Option::None;
        },
    };
    let (v_bg_opacity, i10) = match parse_fx(s, i9) {
        Option::Some(x) => x,
        Option::None => {
            return Option::None;
        },
    };
    let i11 = match expect_lit(s, i10, ",\"size\":") {
        Option::Some(x) => x,
        Option::None => {
            return Option::None;
        },
    };
    let (v_size, i12) = match parse_fx(s, i11) {
        Option::Some(x) => x,
        Option::None => {
            return Option::None;
        },
    };
    let i13 = match expect_lit(s, i12, ",\"padding\":") {
        Option::Some(x) => x,
        Option::None => {
            return Option::None;
        },
    };
    let (v_padding, i14) = match parse_fx(s, i13) {
        Option::Some(x) => x,
        Option::None => {
            return Option::None;
        },
    };
    let i15 = match expect_lit(s, i14, ",\"margin\":") {
        Option::Some(x) => x,
        Option::None => {
            return Option::None;
        },
    };
    let (v_margin, i16) = match parse_fx(s, i15) {
        Option::Some(x) => x,
        Option::None => {
            return Option::None;
        },
    };
    let iend = match expect_lit(s, i16, "}") {
        Option::Some(x) => x,
        Option::None => {
            return Option::None;
        },
    };
    let c = FpsConfig {
        enabled: v_enabled,
        position: v_position,
        text_color: v_text_color,
        bg_color: v_bg_color,
        bg_opacity: v_bg_opacity,
        size: v_size,
        padding: v_padding,
        margin: v_margin,
    };
    proof {
        lemma_p_fx_valid(s@, i9 as int);
        lemma_p_fx_valid(s@, i11 as int);
        lemma_p_fx_valid(s@, i13 as int);
        lemma_p_fx_valid(s@, i15 as int);
        assert(p_fps(s@, pos as int) == Option::Some((c@, iend as int)));
    }
    Option::Some((c, iend))
}

// ---------------------------------------------------------------------------
// Commands
// ---------------------------------------------------------------------------

/// Encoding of one command: a single JSON object tagged by variant name.
pub open spec fn enc_command(c: CommandView) -> Seq<u8> {
    match c {
        CommandView::UpdateCrosshair(d) => lit_bytes("{\"UpdateCrosshair\":") + enc_crosshair(d)
            + lit_bytes("}"),
        CommandView::ShowNotification(n) => lit_bytes("{\"ShowNotification\":") + enc_notification(
            n,
        ) + lit_bytes("}"),
        CommandView::UpdateFps(f) => lit_bytes("{\"UpdateFps\":") + enc_fps(f) + lit_bytes("}"),
        CommandView::ToggleOverlay(b) => lit_bytes("{\"ToggleOverlay\":") + enc_bool(b) + lit_bytes(
            "}",
        ),
    }
}

/// End of the run of spaces beginning at `i`: the wire format allows an
/// optional space after the variant tag, as the documented example shows.
pub open spec fn spaces_end(s: Seq<u8>, i: int) -> int
    decreases s.len() - i
        when 0 <= i <= s.len()
{
    if i < s.len() && s[i] == 0x20 {
        spaces_end(s, i + 1)
    } else {
        i
    }
}

/// Basic bounds of `spaces_end`.
pub proof fn lemma_spaces_end_bounds(s: Seq<u8>, i: int)
    requires
        0 <= i <= s.len(),
    ensures
        i <= spaces_end(s, i) <= s.len(),
    decreases s.len() - i,
{
    if i < s.len() && s[i] == 0x20 {
        lemma_spaces_end_bounds(s, i + 1);
    }
}

/// Position after the run of spaces at `pos`.
fn scan_spaces(s: &Vec<u8>, pos: usize) -> (e: usize)
    requires
        pos <= s@.len(),
    ensures
        e as int == spaces_end(s@, pos as int),
        pos <= e <= s@.len(),
{
    proof {
        lemma_spaces_end_bounds(s@, pos as int);
        assert(s@.len() == s.len());
    }
    let mut j: usize = pos;
    while j < s.len() && s[j] == 0x20
        invariant
            pos <= j <= s@.len(),
            s@.len() <= usize::MAX,
            spaces_end(s@, pos as int) == spaces_end(s@, j as int),
        decreases s@.len() - j,
    {
        j += 1;
    }
    j
}

/// Parse of one command at `i`, trying each variant tag in turn.
pub open spec fn p_command(s: Seq<u8>, i: int) -> Option<(CommandView, int)> {
    match p_lit(s, i, lit_bytes("{\"UpdateCrosshair\":")) {
        Option::Some(i1) => match p_crosshair(s, spaces_end(s, i1)) {
            Option::Some((d, i2)) => match p_lit(s, i2, lit_bytes("}")) {
                Option::Some(i3) => Option::Some((CommandView::UpdateCrosshair(d), i3)),
                Option::None => Option::None,
            },
            Option::None => Option::None,
        },
        Option::None => match p_lit(s, i, lit_bytes("{\"ShowNotification\":")) {
            Option::Some(i1) => match p_notification(s, spaces_end(s, i1)) {
                Option::Some((n, i2)) => match p_lit(s, i2, lit_bytes("}")) {
                    Option::Some(i3) => Option::Some((CommandView::ShowNotification(n), i3)),
                    Option::None => Option::None,
                },
                Option::None => Option::None,
            },
            Option::None => match p_lit(s, i, lit_bytes("{\"UpdateFps\":")) {
                Option::Some(i1) => match p_fps(s, spaces_end(s, i1)) {
                    Option::Some((f, i2)) => match p_lit(s, i2, lit_bytes("}")) {
                        Option::Some(i3) => Option::Some((CommandView::UpdateFps(f), i3)),
                        Option::None => Option::None,
                    },
                    Option::None => Option::None,
                },
                Option::None => match p_lit(s, i, lit_bytes("{\"ToggleOverlay\":")) {
                    Option::Some(i1) => match p_bool(s, spaces_end(s, i1)) {
                        Option::Some((b, i2)) => match p_lit(s, i2, lit_bytes("}")) {
                            Option::Some(i3) => Option::Some((CommandView::ToggleOverlay(b), i3)),
                            Option::None => Option::None,
                        },
                        Option::None => Option::None,
                    },
                    Option::None => Option::None,
                },
            },
        },
    }
}

/// Parse of one whole line: a command that consumes every byte of it.
pub open spec fn p_command_line(s: Seq<u8>) -> Option<CommandView> {
    match p_command(s, 0) {
        Option::Some((c, e)) => {
            if e == s.len() {
                Option::Some(c)
            } else {
                Option::None
            }
        },
        Option::None => Option::None,
    }
}

/// The four variant tags differ within their shared prefix.
proof fn lemma_command_tags_differ(s: Seq<u8>, i: int, c: CommandView)
    requires
        0 <= i <= s.len(),
        match_at(s, i, enc_command(c)),
    ensures
        c is ShowNotification || c is UpdateFps || c is ToggleOverlay ==> !match_at(
            s,
            i,
            lit_bytes("{\"UpdateCrosshair\":"),
        ),
        c is UpdateFps || c is ToggleOverlay ==> !match_at(
            s,
            i,
            lit_bytes("{\"ShowNotification\":"),
        ),
        c is ToggleOverlay ==> !match_at(s, i, lit_bytes("{\"UpdateFps\":")),
{
    reveal_strlit("{\"UpdateCrosshair\":");
    reveal_strlit("{\"ShowNotification\":");
    reveal_strlit("{\"UpdateFps\":");
    reveal_strlit("{\"ToggleOverlay\":");
    let enc = enc_command(c);
    assert(forall|k: int| 0 <= k < enc.len() ==> s[i + k] == #[trigger] enc[k]) by {
        assert(forall|k: int|
            0 <= k < enc.len() ==> #[trigger] s.subrange(i, i + enc.len())[k] == s[i + k]);
    }
    match c {
        CommandView::UpdateCrosshair(_) => {},
        CommandView::ShowNotification(n) => {
            assert(enc[2] == lit_bytes("{\"ShowNotification\":")[2]);
            assert(s[i + 2] == ('S' as u8));
            if match_at(s, i, lit_bytes("{\"UpdateCrosshair\":")) {
                assert(s.subrange(i, i + 19)[2] == s[i + 2]);
                assert(false);
            }
        },
        CommandView::UpdateFps(f) => {
            assert(enc[2] == lit_bytes("{\"UpdateFps\":")[2]);
            assert(enc[8] == lit_bytes("{\"UpdateFps\":")[8]);
            assert(s[i + 2] == ('U' as u8));
            assert(s[i + 8] == ('F' as u8));
            if match_at(s, i, lit_bytes("{\"UpdateCrosshair\":")) {
                assert(s.subrange(i, i + 19)[8] == s[i + 8]);
                assert(false);
            }
            if match_at(s, i, lit_bytes("{\"ShowNotification\":")) {
                assert(s.subrange(i, i + 20)[2] == s[i + 2]);
                assert(false);
            }
        },
        CommandView::ToggleOverlay(b) => {
            assert(enc[2] == lit_bytes("{\"ToggleOverlay\":")[2]);
            assert(s[i + 2] == ('T' as u8));
            if match_at(s, i, lit_bytes("{\"UpdateCrosshair\":")) {
                assert(s.subrange(i, i + 19)[2] == s[i + 2]);
                assert(false);
            }
            if match_at(s, i, lit_bytes("{\"ShowNotification\":")) {
                assert(s.subrange(i, i + 20)[2] == s[i + 2]);
                assert(false);
            }
            if match_at(s, i, lit_bytes("{\"UpdateFps\":")) {
                assert(s.subrange(i, i + 13)[2] == s[i + 2]);
                assert(false);
            }
        },
    }
}

/// Parsing the encoding of a command at its position gives it back.
#[verifier::rlimit(100)]
pub proof fn lemma_parse_enc_command(s: Seq<u8>, i: int, c: CommandView)
    requires
        0 <= i <= s.len(),
        valid_command(c),
        match_at(s, i, enc_command(c)),
    ensures
        p_command(s, i) == Option::Some((c, i + enc_command(c).len())),
{
    lemma_command_tags_differ(s, i, c);
    match c {
        CommandView::UpdateCrosshair(d) => {
            let a0 = lit_bytes("{\"UpdateCrosshair\":");
            let a1 = enc_crosshair(d);
            let a2 = lit_bytes("}");
            lemma_match_concat(s, i, a0 + a1, a2);
            lemma_match_concat(s, i, a0, a1);
            assert(s[i + a0.len()] != 0x20) by {
                reveal_strlit("{\"enabled\":");
                assert(a1[0] == lit_bytes("{\"enabled\":")[0]);
                assert(s.subrange(i + a0.len(), i + a0.len() + a1.len())[0] == s[i + a0.len()]);
            }
            assert(spaces_end(s, i + a0.len()) == i + a0.len());
            lemma_parse_enc_crosshair(s, i + a0.len(), d);
        },
        CommandView::ShowNotification(n) => {
            let a0 = lit_bytes("{\"ShowNotification\":");
            let a1 = enc_notification(n);
            let a2 = lit_bytes("}");
            lemma_match_concat(s, i, a0 + a1, a2);
            lemma_match_concat(s, i, a0, a1);
            assert(s[i + a0.len()] != 0x20) by {
                reveal_strlit("{\"id\":");
                assert(a1[0] == lit_bytes("{\"id\":")[0]);
                assert(s.subrange(i + a0.len(), i + a0.len() + a1.len())[0] == s[i + a0.len()]);
            }
            assert(spaces_end(s, i + a0.len()) == i + a0.len());
            lemma_parse_enc_notification(s, i + a0.len(), n);
        },
        CommandView::UpdateFps(f) => {
            let a0 = lit_bytes("{\"UpdateFps\":");
            let a1 = enc_fps(f);
            let a2 = lit_bytes("}");
            lemma_match_concat(s, i, a0 + a1, a2);
            lemma_match_concat(s, i, a0, a1);
            assert(s[i + a0.len()] != 0x20) by {
                reveal_strlit("{\"enabled\":");
                assert(a1[0] == lit_bytes("{\"enabled\":")[0]);
                assert(s.subrange(i + a0.len(), i + a0.len() + a1.len())[0] == s[i + a0.len()]);
            }
            assert(spaces_end(s, i + a0.len()) == i + a0.len());
            lemma_parse_enc_fps(s, i + a0.len(), f);
        },
        CommandView::ToggleOverlay(b) => {
            let a0 = lit_bytes("{\"ToggleOverlay\":");
            let a1 = enc_bool(b);
            let a2 = lit_bytes("}");
            lemma_match_concat(s, i, a0 + a1, a2);
            lemma_match_concat(s, i, a0, a1);
            assert(s[i + a0.len()] != 0x20) by {
                reveal_strlit("true");
                reveal_strlit("false");
                assert(s.subrange(i + a0.len(), i + a0.len() + a1.len())[0] == s[i + a0.len()]);
            }
            assert(spaces_end(s, i + a0.len()) == i + a0.len());
            lemma_parse_enc_bool(s, i + a0.len(), b);
        },
    }
}

/// Law: serialising a command and parsing the line back yields an equal
/// value, for every variant and every well-formed payload.
pub proof fn lemma_command_round_trip(c: CommandView)
    requires
        valid_command(c),
    ensures
        p_command_line(enc_command(c)) == Option::Some(c),
{
    let s = enc_command(c);
    assert(match_at(s, 0, s)) by {
        assert(s.subrange(0, s.len() as int) =~= s);
    }
    lemma_parse_enc_command(s, 0, c);
}

/// Encodes one command as one line (without the newline).
pub fn encode_command(c: &Command) -> (r: Vec<u8>)
    requires
        valid_command(c@),
    ensures
        r@ == enc_command(c@),
{
    proof {
        reveal_strlit("{\"UpdateCrosshair\":");
        reveal_strlit("{\"ShowNotification\":");
        reveal_strlit("{\"UpdateFps\":");
        reveal_strlit("{\"ToggleOverlay\":");
        reveal_strlit("}");
    }
    let mut out: Vec<u8> = Vec::new();
    match c {
        Command::UpdateCrosshair(d) => {
            append_lit(&mut out, "{\"UpdateCrosshair\":");
            encode_crosshair(&mut out, d);
            append_lit(&mut out, "}");
        },
        Command::ShowNotification(n) => {
            append_lit(&mut out, "{\"ShowNotification\":");
            encode_notification(&mut out, n);
            append_lit(&mut out, "}");
        },
        Command::UpdateFps(f) => {
            append_lit(&mut out, "{\"UpdateFps\":");
            encode_fps(&mut out, f);
            append_lit(&mut out, "}");
        },
        Command::ToggleOverlay(b) => {
            append_lit(&mut out, "{\"ToggleOverlay\":");
            encode_bool(&mut out, *b);
            append_lit(&mut out, "}");
        },
    }
    proof {
        assert(out@ =~= enc_command(c@));
    }
    out
}

/// Rest of a line after the crosshair-update tag.
pub open spec fn p_tail_crosshair(s: Seq<u8>, i: int) -> Option<CommandView> {
    match p_crosshair(s, i) {
        Option::Some((d, i2)) => match p_lit(s, i2, lit_bytes("}")) {
            Option::Some(i3) => {
                if i3 == s.len() {
                    Option::Some(CommandView::UpdateCrosshair(d))
                } else {
                    Option::None
                }
            },
            Option::None => Option::None,
        },
        Option::None => Option::None,
    }
}

/// Rest of a line after the notification tag.
pub open spec fn p_tail_notification(s: Seq<u8>, i: int) -> Option<CommandView> {
    match p_notification(s, i) {
        Option::Some((n, i2)) => match p_lit(s, i2, lit_bytes("}")) {
            Option::Some(i3) => {
                if i3 == s.len() {
                    Option::Some(CommandView::ShowNotification(n))
                } else {
                    Option::None
                }
            },
            Option::None => Option::None,
        },
        Option::None => Option::None,
    }
}

/// Rest of a line after the FPS-update tag.
pub open spec fn p_tail_fps(s: Seq<u8>, i: int) -> Option<CommandView> {
    match p_fps(s, i) {
        Option::Some((f, i2)) => match p_lit(s, i2, lit_bytes("}")) {
            Option::Some(i3) => {
                if i3 == s.len() {
                    Option::Some(CommandView::UpdateFps(f))
                } else {
                    Option::None
                }
            },
            Option::None => Option::None,
        },
        Option::None => Option::None,
    }
}

/// Rest of a line after the toggle tag.
pub open spec fn p_tail_toggle(s: Seq<u8>, i: int) -> Option<CommandView> {
    match p_bool(s, i) {
        Option::Some((b, i2)) => match p_lit(s, i2, lit_bytes("}")) {
            Option::Some(i3) => {
                if i3 == s.len() {
                    Option::Some(CommandView::ToggleOverlay(b))
                } else {
                    Option::None
                }
            },
            Option::None => Option::None,
        },
        Option::None => Option::None,
    }
}

/// Reads the rest of a crosshair-update line.
fn parse_tail_crosshair(s: &Vec<u8>, i1: usize) -> (r: Option<Command>)
    requires
        i1 <= s@.len(),
    ensures
        match r {
            Option::Some(c) => p_tail_crosshair(s@, i1 as int) == Option::Some(c@)
                && valid_command(c@),
            Option::None => p_tail_crosshair(s@, i1 as int) is None,
        },
{
    proof {
        reveal_strlit("}");
        assert(s@.len() == s.len());
    }
    if let Option::Some((d, i2)) = parse_crosshair(s, i1) {
        if let Option::Some(i3) = expect_lit(s, i2, "}") {
            if i3 == s.len() {
                return Option::Some(Command::UpdateCrosshair(d));
            }
        }
    }
    Option::None
}

/// Reads the rest of a notification line.
fn parse_tail_notification(s: &Vec<u8>, i1: usize) -> (r: Option<Command>)
    requires
        i1 <= s@.len(),
    ensures
        match r {
            Option::Some(c) => p_tail_notification(s@, i1 as int) == Option::Some(c@)
                && valid_command(c@),
            Option::None => p_tail_notification(s@, i1 as int) is None,
        },
{
    proof {
        reveal_strlit("}");
        assert(s@.len() == s.len());
    }
    if let Option::Some((n, i2)) = parse_notification(s, i1) {
        if let Option::Some(i3) = expect_lit(s, i2, "}") {
            if i3 == s.len() {
                return Option::Some(Command::ShowNotification(n));
            }
        }
    }
    Option::None
}

/// Reads the rest of an FPS-update line.
fn parse_tail_fps(s: &Vec<u8>, i1: usize) -> (r: Option<Command>)
    requires
        i1 <= s@.len(),
    ensures
        match r {
            Option::Some(c) => p_tail_fps(s@, i1 as int) == Option::Some(c@) && valid_command(c@),
            Option::None => p_tail_fps(s@, i1 as int) is None,
        },
{
    proof {
        reveal_strlit("}");
        assert(s@.len() == s.len());
    }
    if let Option::Some((f, i2)) = parse_fps(s, i1) {
        if let Option::Some(i3) = expect_lit(s, i2, "}") {
            if i3 == s.len() {
                return Option::Some(Command::UpdateFps(f));
            }
        }
    }
    Option::None
}

/// Reads the rest of a toggle line.
fn parse_tail_toggle(s: &Vec<u8>, i1: usize) -> (r: Option<Command>)
    requires
        i1 <= s@.len(),
    ensures
        match r {
            Option::Some(c) => p_tail_toggle(s@, i1 as int) == Option::Some(c@) && valid_command(
                c@,
            ),
            Option::None => p_tail_toggle(s@, i1 as int) is None,
        },
{
    proof {
        reveal_strlit("}");
        assert(s@.len() == s.len());
    }
    if let Option::Some((b, i2)) = parse_bool(s, i1) {
        proof {
            reveal_strlit("true");
            reveal_strlit("false");
        }
        if let Option::Some(i3) = expect_lit(s, i2, "}") {
            if i3 == s.len() {
                return Option::Some(Command::ToggleOverlay(b));
            }
        }
    }
    Option::None
}

/// A whole line parses as a command exactly when the tail after its
/// variant tag does.
proof fn lemma_command_line_by_tag(s: Seq<u8>)
    ensures
        match p_lit(s, 0, lit_bytes("{\"UpdateCrosshair\":")) {
            Option::Some(i1) => p_command_line(s) == p_tail_crosshair(s, spaces_end(s, i1)),
            Option::None => match p_lit(s, 0, lit_bytes("{\"ShowNotification\":")) {
                Option::Some(i1) => p_command_line(s) == p_tail_notification(s, spaces_end(s, i1)),
                Option::None => match p_lit(s, 0, lit_bytes("{\"UpdateFps\":")) {
                    Option::Some(i1) => p_command_line(s) == p_tail_fps(s, spaces_end(s, i1)),
                    Option::None => match p_lit(s, 0, lit_bytes("{\"ToggleOverlay\":")) {
                        Option::Some(i1) => p_command_line(s) == p_tail_toggle(s, spaces_end(s, i1)),
                        Option::None => p_command_line(s) is None,
                    },
                },
            },
        },
{
}

/// Parses one whole line as a command; unparsable lines give `None` and
/// are skipped by the channel reader. Every parsed command is well-formed.
pub fn parse_command(s: &Vec<u8>) -> (r: Option<Command>)
    ensures
        match r {
            Option::Some(c) => p_command_line(s@) == Option::Some(c@) && valid_command(c@),
            Option::None => p_command_line(s@) is None,
        },
{
    proof {
        reveal_strlit("{\"UpdateCrosshair\":");
        reveal_strlit("{\"ShowNotification\":");
        reveal_strlit("{\"UpdateFps\":");
        reveal_strlit("{\"ToggleOverlay\":");
        assert(s@.len() == s.len());
        lemma_command_line_by_tag(s@);
    }
    if let Option::Some(i1) = expect_lit(s, 0, "{\"UpdateCrosshair\":") {
        let i1s = scan_spaces(s, i1);
        return parse_tail_crosshair(s, i1s);
    }
    if let Option::Some(i1) = expect_lit(s, 0, "{\"ShowNotification\":") {
        let i1s = scan_spaces(s, i1);
        return parse_tail_notification(s, i1s);
    }
    if let Option::Some(i1) = expect_lit(s, 0, "{\"UpdateFps\":") {
        let i1s = scan_spaces(s, i1);
        return parse_tail_fps(s, i1s);
    }
    if let Option::Some(i1) = expect_lit(s, 0, "{\"ToggleOverlay\":") {
        let i1s = scan_spaces(s, i1);
        return parse_tail_toggle(s, i1s);
    }
    Option::None
}

} // verus!
