//! Coin quantity strings.
//!
//! A quantity string is a comma-separated list of segments, each matching the
//! lexical grammar `amount denom`: one or more decimal digits, an optional
//! fraction (a dot followed by one or more digits), then a denomination of
//! one or more lowercase letters.  Amounts are decoded as fixed-point values
//! counted in millionths of a whole unit; fraction digits beyond the sixth
//! are truncated.

use vstd::prelude::*;
use vstd::string::StrSliceExecFns;

verus! {

/// Millionths per whole unit: the fixed-point scale of every coin amount.
pub const AMOUNT_SCALE: u64 = 1_000_000;

/// One decoded coin: a denomination and an amount in millionths.
#[derive(Clone, Debug)]
pub struct Coin {
    pub denom: String,
    pub amount: u64,
}

/// Mathematical image of a [`Coin`].
pub struct CoinView {
    pub denom: Seq<char>,
    pub amount: u64,
}

impl View for Coin {
    type V = CoinView;

    open spec fn view(&self) -> CoinView {
        CoinView { denom: self.denom@, amount: self.amount }
    }
}

/// Error for a quantity string that does not match the grammar, or whose
/// amount does not fit in sixty-four bits of millionths.
#[derive(Clone, Debug)]
pub enum CoinError {
    Malformed,
}

pub open spec fn is_digit_char(c: char) -> bool {
    '0' <= c && c <= '9'
}

pub open spec fn is_lower_char(c: char) -> bool {
    'a' <= c && c <= 'z'
}

/// Numeric value of one decimal digit character.
pub open spec fn digit_val(c: char) -> int {
    c as int - 48
}

/// Value of a digit string, most significant digit first.
pub open spec fn digits_val(s: Seq<char>) -> int
    decreases s.len(),
{
    if s.len() == 0 {
        0
    } else {
        digits_val(s.drop_last()) * 10 + digit_val(s.last())
    }
}

pub open spec fn all_digits(s: Seq<char>) -> bool {
    forall|i: int| 0 <= i < s.len() ==> is_digit_char(s[i])
}

pub open spec fn all_lower(s: Seq<char>) -> bool {
    forall|i: int| 0 <= i < s.len() ==> is_lower_char(s[i])
}

pub open spec fn pow10(n: nat) -> int
    decreases n,
{
    if n == 0 {
        1
    } else {
        10 * pow10((n - 1) as nat)
    }
}

/// Length of the longest all-digit prefix of `s`.
pub open spec fn digit_prefix_len(s: Seq<char>) -> nat
    decreases s.len(),
{
    if s.len() == 0 || !is_digit_char(s[0]) {
        0nat
    } else {
        (digit_prefix_len(s.skip(1)) + 1) as nat
    }
}

/// Length of the longest comma-free prefix of `s`.
pub open spec fn segment_len(s: Seq<char>) -> nat
    decreases s.len(),
{
    if s.len() == 0 || s[0] == ',' {
        0nat
    } else {
        (segment_len(s.skip(1)) + 1) as nat
    }
}

/// Millionths contributed by a fraction-digit string: the first six digits,
/// padded with zeros to six places; later digits are truncated.
pub open spec fn frac_val(s: Seq<char>) -> int {
    if s.len() >= 6 {
        digits_val(s.take(6))
    } else {
        digits_val(s) * pow10((6 - s.len()) as nat)
    }
}

/// Amount in millionths from an integer part and a fraction part.
pub open spec fn amount_val(intpart: Seq<char>, frac: Seq<char>) -> int {
    digits_val(intpart) * AMOUNT_SCALE + frac_val(frac)
}

/// Parse of the split pieces of one segment: `None` when the denomination is
/// empty or not lowercase, or the amount does not fit in a `u64`.
pub open spec fn spec_coin_parts(intpart: Seq<char>, frac: Seq<char>, denom: Seq<char>) -> Option<
    CoinView,
> {
    if denom.len() == 0 || !all_lower(denom) {
        None
    } else if amount_val(intpart, frac) > u64::MAX {
        None
    } else {
        Some(CoinView { denom, amount: amount_val(intpart, frac) as u64 })
    }
}

/// Parse of one `amount denom` segment.
pub open spec fn spec_coin(seg: Seq<char>) -> Option<CoinView> {
    let d = digit_prefix_len(seg) as int;
    if d == 0 {
        None
    } else {
        let rest = seg.skip(d);
        if rest.len() > 0 && rest[0] == '.' {
            let f = digit_prefix_len(rest.skip(1)) as int;
            if f == 0 {
                None
            } else {
                spec_coin_parts(seg.take(d), rest.skip(1).take(f), rest.skip(1).skip(f))
            }
        } else {
            spec_coin_parts(seg.take(d), Seq::empty(), rest)
        }
    }
}

/// Parse of a non-empty comma-separated list of segments.
pub open spec fn spec_coins_ne(s: Seq<char>) -> Option<Seq<CoinView>>
    decreases s.len(),
{
    let n = segment_len(s) as int;
    if n >= s.len() {
        match spec_coin(s) {
            None => None,
            Some(c) => Some(seq![c]),
        }
    } else {
        match spec_coin(s.take(n)) {
            None => None,
            Some(c) => match spec_coins_ne(s.skip(n + 1)) {
                None => None,
                Some(rest) => Some(seq![c] + rest),
            },
        }
    }
}

/// Parse of a whole quantity string; the empty string holds no coins.
pub open spec fn spec_parse_coins(s: Seq<char>) -> Option<Seq<CoinView>> {
    if s.len() == 0 {
        Some(Seq::empty())
    } else {
        spec_coins_ne(s)
    }
}

/// The views of the coins in `v`, in order.
pub open spec fn coin_views(v: Seq<Coin>) -> Seq<CoinView> {
    v.map_values(|c: Coin| c@)
}

proof fn lemma_digits_val_nonneg(s: Seq<char>)
    requires
        all_digits(s),
    ensures
        digits_val(s) >= 0,
    decreases s.len(),
{
    if s.len() > 0 {
        assert(all_digits(s.drop_last()));
        lemma_digits_val_nonneg(s.drop_last());
    }
}

proof fn lemma_pow10_small()
    ensures
        pow10(0) == 1,
        pow10(1) == 10,
        pow10(2) == 100,
        pow10(3) == 1000,
        pow10(4) == 10000,
        pow10(5) == 100000,
        pow10(6) == 1000000,
{
    assert(pow10(0) == 1);
    assert(pow10(1) == 10);
    assert(pow10(2) == 100);
    assert(pow10(3) == 1000);
    assert(pow10(4) == 10000);
    assert(pow10(5) == 100000);
    assert(pow10(6) == 1000000);
}

proof fn lemma_frac_val_range(frac: Seq<char>)
    requires
        all_digits(frac),
    ensures
        0 <= frac_val(frac),
{
    lemma_pow10_small();
    if frac.len() >= 6 {
        assert(all_digits(frac.take(6))) by {
            assert(forall|j: int| 0 <= j < 6 ==> frac.take(6)[j] == frac[j]);
        }
        lemma_digits_val_nonneg(frac.take(6));
    } else {
        lemma_digits_val_nonneg(frac);
        let p = pow10((6 - frac.len()) as nat);
        assert(p >= 1) by {
            lemma_pow10_pos((6 - frac.len()) as nat);
        }
        assert(digits_val(frac) * p >= 0) by (nonlinear_arith)
            requires
                digits_val(frac) >= 0,
                p >= 1,
        ;
    }
}

proof fn lemma_pow10_pos(n: nat)
    ensures
        pow10(n) >= 1,
    decreases n,
{
    if n > 0 {
        lemma_pow10_pos((n - 1) as nat);
    }
}

/// An integer part too large for `u64` makes the whole amount too large.
proof fn lemma_amount_exceeds(intpart: Seq<char>, frac: Seq<char>)
    requires
        all_digits(intpart),
        all_digits(frac),
        digits_val(intpart) > u64::MAX,
    ensures
        amount_val(intpart, frac) > u64::MAX,
{
    lemma_frac_val_range(frac);
    assert(digits_val(intpart) * AMOUNT_SCALE >= digits_val(intpart) * 1);
}

/// Scan the digit run of `s@` between `from` and `limit`.
fn digit_run(s: &str, from: usize, limit: usize) -> (r: usize)
    requires
        from <= limit <= s@.len(),
    ensures
        from <= r <= limit,
        r - from == digit_prefix_len(s@.subrange(from as int, limit as int)),
{
    let mut i: usize = from;
    loop
        invariant
            from <= i <= limit <= s@.len(),
            digit_prefix_len(s@.subrange(from as int, limit as int)) == i - from
                + digit_prefix_len(s@.subrange(i as int, limit as int)),
        ensures
            from <= i <= limit,
            i - from == digit_prefix_len(s@.subrange(from as int, limit as int)),
        decreases limit - i,
    {
        if i == limit {
            assert(s@.subrange(i as int, limit as int).len() == 0);
            break;
        }
        let c = s.get_char(i);
        assert(c == s@.subrange(i as int, limit as int)[0]);
        if !(c >= '0' && c <= '9') {
            assert(digit_prefix_len(s@.subrange(i as int, limit as int)) == 0);
            break;
        }
        assert(s@.subrange(i as int, limit as int).skip(1) =~= s@.subrange(
            i as int + 1,
            limit as int,
        ));
        i = i + 1;
    }
    i
}

/// Parse the digit string `s@.subrange(from, to)`, reporting `None` when its
/// value exceeds `u64::MAX`.
fn digits_to_value(s: &str, from: usize, to: usize) -> (r: Option<u64>)
    requires
        from <= to <= s@.len(),
        all_digits(s@.subrange(from as int, to as int)),
    ensures
        match r {
            Some(v) => v == digits_val(s@.subrange(from as int, to as int)),
            None => digits_val(s@.subrange(from as int, to as int)) > u64::MAX,
        },
{
    let ghost whole = s@.subrange(from as int, to as int);
    let mut val: u128 = 0;
    let mut i: usize = from;
    while i < to
        invariant
            from <= i <= to <= s@.len(),
            all_digits(whole),
            whole == s@.subrange(from as int, to as int),
            digits_val(s@.subrange(from as int, i as int)) <= u64::MAX ==> val == digits_val(
                s@.subrange(from as int, i as int),
            ),
            digits_val(s@.subrange(from as int, i as int)) > u64::MAX ==> val > u64::MAX,
            val <= 20 * (u64::MAX as u128),
        decreases to - i,
    {
        let ghost prefix = s@.subrange(from as int, i as int);
        let ghost next = s@.subrange(from as int, i as int + 1);
        proof {
            assert(next.drop_last() =~= prefix);
            assert(next.last() == whole[i - from]);
            assert(is_digit_char(whole[i - from]));
            assert(all_digits(prefix)) by {
                assert(forall|j: int|
                    0 <= j < prefix.len() ==> prefix[j] == whole[j] && is_digit_char(whole[j]));
            }
            lemma_digits_val_nonneg(prefix);
        }
        let c = s.get_char(i);
        assert(c == next.last());
        let d: u128 = (c as u32 as u128) - 48;
        assert(d == digit_val(c));
        proof {
            assert(digits_val(next) == digits_val(prefix) * 10 + digit_val(c));
        }
        if val <= u64::MAX as u128 {
            val = val * 10 + d;
            assert(val == digits_val(next));
        } else {
            assert(digits_val(prefix) > u64::MAX);
            assert(digits_val(prefix) * 10 >= digits_val(prefix) * 1);
        }
        i = i + 1;
    }
    if val > u64::MAX as u128 {
        None
    } else {
        Some(val as u64)
    }
}

/// Millionths named by the fraction digits `s@.subrange(from, to)`: the
/// first six digits, zero-padded to six places.
fn frac_to_value(s: &str, from: usize, to: usize) -> (r: u64)
    requires
        from <= to <= s@.len(),
        all_digits(s@.subrange(from as int, to as int)),
    ensures
        r == frac_val(s@.subrange(from as int, to as int)),
        r < 1_000_000,
{
    let ghost whole = s@.subrange(from as int, to as int);
    proof {
        lemma_pow10_small();
    }
    let keep: usize = if to - from >= 6 {
        6
    } else {
        to - from
    };
    let ghost kept = s@.subrange(from as int, from as int + keep as int);
    proof {
        if to - from >= 6 {
            assert(kept =~= whole.take(6));
        } else {
            assert(kept =~= whole);
        }
        assert(all_digits(kept)) by {
            assert(forall|j: int|
                0 <= j < kept.len() ==> kept[j] == whole[j] && is_digit_char(whole[j]));
        }
    }
    let mut val: u64 = 0;
    let mut i: usize = 0;
    while i < keep
        invariant
            keep <= 6,
            from <= to <= s@.len(),
            keep <= to - from,
            all_digits(kept),
            kept == s@.subrange(from as int, from as int + keep as int),
            val == digits_val(kept.take(i as int)),
            0 <= val < pow10(i as nat),
            i <= keep,
        decreases keep - i,
    {
        proof {
            lemma_pow10_small();
            lemma_pow10_mono(i as nat, 5nat);
            assert(kept.take(i as int + 1).drop_last() =~= kept.take(i as int));
            assert(kept.take(i as int + 1).last() == kept[i as int]);
            assert(is_digit_char(kept[i as int]));
        }
        let c = s.get_char(from + i);
        assert(c == kept[i as int]);
        let d: u64 = (c as u32 as u64) - 48;
        val = val * 10 + d;
        i = i + 1;
    }
    assert(kept.take(keep as int) =~= kept);
    let mut pad: usize = keep;
    while pad < 6
        invariant
            keep <= pad <= 6,
            all_digits(kept),
            val == digits_val(kept) * pow10((pad - keep) as nat),
            0 <= val < pow10(pad as nat),
        decreases 6 - pad,
    {
        proof {
            lemma_pow10_small();
            lemma_pow10_mono(pad as nat, 5nat);
            assert(pow10((pad + 1 - keep) as nat) == 10 * pow10((pad - keep) as nat));
            assert(digits_val(kept) * (10 * pow10((pad - keep) as nat)) == (digits_val(kept)
                * pow10((pad - keep) as nat)) * 10) by (nonlinear_arith);
        }
        val = val * 10;
        pad = pad + 1;
    }
    proof {
        lemma_pow10_small();
        if whole.len() >= 6 {
            assert(kept =~= whole.take(6));
        } else {
            assert(kept =~= whole);
        }
    }
    val
}

proof fn lemma_pow10_mono(a: nat, b: nat)
    requires
        a <= b,
    ensures
        pow10(a) <= pow10(b),
    decreases b,
{
    if a < b {
        lemma_pow10_mono(a, (b - 1) as nat);
        lemma_pow10_pos((b - 1) as nat);
    }
}

/// Check that every character of `s@.subrange(from, to)` is a lowercase
/// letter.
fn check_lower(s: &str, from: usize, to: usize) -> (r: bool)
    requires
        from <= to <= s@.len(),
    ensures
        r == all_lower(s@.subrange(from as int, to as int)),
{
    let ghost whole = s@.subrange(from as int, to as int);
    let mut i: usize = from;
    while i < to
        invariant
            from <= i <= to <= s@.len(),
            whole == s@.subrange(from as int, to as int),
            forall|j: int| 0 <= j < i - from ==> is_lower_char(whole[j]),
        decreases to - i,
    {
        let c = s.get_char(i);
        assert(c == whole[i - from]);
        if !(c >= 'a' && c <= 'z') {
            assert(!all_lower(whole));
            return false;
        }
        i = i + 1;
    }
    true
}

/// Parse one segment `s@.subrange(from, to)` as `amount denom`.
fn parse_segment(s: &str, from: usize, to: usize) -> (r: Option<Coin>)
    requires
        from <= to <= s@.len(),
    ensures
        match r {
            Some(c) => spec_coin(s@.subrange(from as int, to as int)) == Some(c@),
            None => spec_coin(s@.subrange(from as int, to as int)) is None,
        },
{
    let ghost seg = s@.subrange(from as int, to as int);
    let d_end = digit_run(s, from, to);
    if d_end == from {
        assert(digit_prefix_len(seg) == 0);
        return None;
    }
    let ghost dlen = digit_prefix_len(seg) as int;
    assert(dlen == d_end - from);
    let ghost intpart = seg.take(dlen);
    let ghost rest = seg.skip(dlen);
    proof {
        assert(intpart =~= s@.subrange(from as int, d_end as int));
        assert(rest =~= s@.subrange(d_end as int, to as int));
        lemma_digit_prefix_chars(seg);
        assert(all_digits(intpart)) by {
            assert(forall|j: int| 0 <= j < dlen ==> intpart[j] == seg[j] && is_digit_char(seg[j]));
        }
    }
    let int_val_o = digits_to_value(s, from, d_end);
    let has_dot = if d_end < to {
        let c = s.get_char(d_end);
        assert(c == rest[0]);
        c == '.'
    } else {
        false
    };
    if has_dot {
        let f_end = digit_run(s, d_end + 1, to);
        proof {
            assert(rest.skip(1) =~= s@.subrange(d_end as int + 1, to as int));
        }
        if f_end == d_end + 1 {
            assert(digit_prefix_len(rest.skip(1)) == 0);
            return None;
        }
        let ghost flen = digit_prefix_len(rest.skip(1)) as int;
        assert(flen == f_end - (d_end + 1));
        let ghost frac = rest.skip(1).take(flen);
        let ghost denom_part = rest.skip(1).skip(flen);
        proof {
            assert(frac =~= s@.subrange(d_end as int + 1, f_end as int));
            assert(denom_part =~= s@.subrange(f_end as int, to as int));
            lemma_digit_prefix_chars(rest.skip(1));
            assert(all_digits(frac)) by {
                assert(forall|j: int|
                    0 <= j < flen ==> frac[j] == rest.skip(1)[j] && is_digit_char(rest.skip(1)[j]));
            }
        }
        let frac_v = frac_to_value(s, d_end + 1, f_end);
        if f_end == to {
            assert(denom_part.len() == 0);
            return None;
        }
        if !check_lower(s, f_end, to) {
            return None;
        }
        match int_val_o {
            None => {
                proof {
                    lemma_amount_exceeds(intpart, frac);
                }
                None
            },
            Some(iv) => {
                proof {
                    lemma_digits_val_nonneg(intpart);
                    lemma_frac_val_range(frac);
                }
                let amt128: u128 = (iv as u128) * (AMOUNT_SCALE as u128) + (frac_v as u128);
                assert(amt128 == amount_val(intpart, frac));
                if amt128 > u64::MAX as u128 {
                    None
                } else {
                    let amount = amt128 as u64;
                    let denom = s.substring_char(f_end, to).to_owned();
                    assert(denom@ =~= denom_part);
                    Some(Coin { denom, amount })
                }
            },
        }
    } else {
        proof {
            if rest.len() > 0 {
                assert(rest[0] != '.');
            }
        }
        if d_end == to {
            assert(rest.len() == 0);
            return None;
        }
        if !check_lower(s, d_end, to) {
            return None;
        }
        match int_val_o {
            None => {
                proof {
                    lemma_amount_exceeds(intpart, Seq::<char>::empty());
                }
                None
            },
            Some(iv) => {
                proof {
                    lemma_digits_val_nonneg(intpart);
                    lemma_pow10_small();
                    assert(frac_val(Seq::<char>::empty()) == 0);
                }
                let amt128: u128 = (iv as u128) * (AMOUNT_SCALE as u128);
                assert(amt128 == amount_val(intpart, Seq::<char>::empty()));
                if amt128 > u64::MAX as u128 {
                    None
                } else {
                    let amount = amt128 as u64;
                    let denom = s.substring_char(d_end, to).to_owned();
                    assert(denom@ =~= rest);
                    Some(Coin { denom, amount })
                }
            },
        }
    }
}

proof fn lemma_digit_prefix_chars(s: Seq<char>)
    ensures
        digit_prefix_len(s) <= s.len(),
        forall|j: int| 0 <= j < digit_prefix_len(s) ==> is_digit_char(s[j]),
        digit_prefix_len(s) < s.len() ==> !is_digit_char(s[digit_prefix_len(s) as int]),
    decreases s.len(),
{
    if s.len() == 0 || !is_digit_char(s[0]) {
    } else {
        lemma_digit_prefix_chars(s.skip(1));
        assert forall|j: int| 0 <= j < digit_prefix_len(s) implies is_digit_char(s[j]) by {
            if j > 0 {
                assert(s.skip(1)[j - 1] == s[j]);
            }
        }
        if digit_prefix_len(s) < s.len() {
            assert(s.skip(1)[digit_prefix_len(s) as int - 1] == s[digit_prefix_len(s) as int]);
        }
    }
}

proof fn lemma_segment_chars(s: Seq<char>)
    ensures
        segment_len(s) <= s.len(),
    decreases s.len(),
{
    if s.len() == 0 || s[0] == ',' {
    } else {
        lemma_segment_chars(s.skip(1));
    }
}

/// Scan for the end of the comma-free run of `s@` starting at `from`;
/// `total` is the character length of `s`.
fn segment_run(s: &str, from: usize, total: usize) -> (r: usize)
    requires
        total == s@.len(),
        from <= total,
    ensures
        from <= r <= total,
        r - from == segment_len(s@.skip(from as int)),
{
    let mut i: usize = from;
    loop
        invariant
            from <= i <= total,
            total == s@.len(),
            segment_len(s@.skip(from as int)) == i - from + segment_len(s@.skip(i as int)),
        ensures
            from <= i <= total,
            i - from == segment_len(s@.skip(from as int)),
        decreases total - i,
    {
        if i == total {
            assert(s@.skip(i as int).len() == 0);
            break;
        }
        let c = s.get_char(i);
        assert(c == s@.skip(i as int)[0]);
        if c == ',' {
            assert(segment_len(s@.skip(i as int)) == 0);
            break;
        }
        assert(s@.skip(i as int).skip(1) =~= s@.skip(i as int + 1));
        i = i + 1;
    }
    i
}

/// Parse of a bare decimal number (digits, optional dot and digits) into
/// millionths, `None` when the shape is wrong or the value does not fit.
pub open spec fn spec_amount(s: Seq<char>) -> Option<u64> {
    let d = digit_prefix_len(s) as int;
    if d == 0 {
        None
    } else if d == s.len() {
        if amount_val(s, Seq::empty()) <= u64::MAX {
            Some(amount_val(s, Seq::empty()) as u64)
        } else {
            None
        }
    } else if s[d] == '.' {
        let f = digit_prefix_len(s.skip(d + 1)) as int;
        if f == 0 || d + 1 + f != s.len() {
            None
        } else if amount_val(s.take(d), s.skip(d + 1)) <= u64::MAX {
            Some(amount_val(s.take(d), s.skip(d + 1)) as u64)
        } else {
            None
        }
    } else {
        None
    }
}

/// Decode a bare decimal number into millionths of a unit.
pub fn parse_amount(s: &str) -> (r: Option<u64>)
    ensures
        r == spec_amount(s@),
{
    let total = s.unicode_len();
    proof {
        assert(s@.subrange(0, total as int) =~= s@);
    }
    let d_end = digit_run(s, 0, total);
    if d_end == 0 {
        return None;
    }
    let ghost dlen = digit_prefix_len(s@) as int;
    assert(dlen == d_end);
    proof {
        lemma_digit_prefix_chars(s@);
        assert(all_digits(s@.subrange(0, d_end as int))) by {
            assert(forall|j: int|
                0 <= j < d_end ==> s@.subrange(0, d_end as int)[j] == s@[j] && is_digit_char(
                    s@[j],
                ));
        }
    }
    let int_val_o = digits_to_value(s, 0, d_end);
    if d_end == total {
        proof {
            assert(s@.subrange(0, d_end as int) =~= s@);
            lemma_pow10_small();
            assert(frac_val(Seq::<char>::empty()) == 0);
        }
        match int_val_o {
            None => {
                proof {
                    lemma_amount_exceeds(s@, Seq::<char>::empty());
                }
                None
            },
            Some(iv) => {
                let amt128: u128 = (iv as u128) * (AMOUNT_SCALE as u128);
                assert(amt128 == amount_val(s@, Seq::<char>::empty()));
                if amt128 > u64::MAX as u128 {
                    None
                } else {
                    Some(amt128 as u64)
                }
            },
        }
    } else {
        let c = s.get_char(d_end);
        if c != '.' {
            return None;
        }
        let f_end = digit_run(s, d_end + 1, total);
        proof {
            assert(s@.subrange(d_end as int + 1, total as int) =~= s@.skip(d_end as int + 1));
        }
        if f_end == d_end + 1 {
            assert(digit_prefix_len(s@.skip(d_end as int + 1)) == 0);
            return None;
        }
        let ghost flen = digit_prefix_len(s@.skip(d_end as int + 1)) as int;
        assert(flen == f_end - (d_end + 1));
        if f_end != total {
            return None;
        }
        let ghost intpart = s@.take(dlen);
        let ghost frac = s@.skip(dlen + 1);
        proof {
            assert(intpart =~= s@.subrange(0, d_end as int));
            assert(frac =~= s@.subrange(d_end as int + 1, total as int));
            lemma_digit_prefix_chars(s@.skip(d_end as int + 1));
            assert(all_digits(frac)) by {
                assert(forall|j: int|
                    0 <= j < frac.len() ==> frac[j] == s@.skip(d_end as int + 1)[j]
                        && is_digit_char(s@.skip(d_end as int + 1)[j]));
            }
        }
        let frac_v = frac_to_value(s, d_end + 1, f_end);
        match int_val_o {
            None => {
                proof {
                    lemma_amount_exceeds(intpart, frac);
                }
                None
            },
            Some(iv) => {
                proof {
                    lemma_digits_val_nonneg(intpart);
                    lemma_frac_val_range(frac);
                }
                let amt128: u128 = (iv as u128) * (AMOUNT_SCALE as u128) + (frac_v as u128);
                assert(amt128 == amount_val(intpart, frac));
                if amt128 > u64::MAX as u128 {
                    None
                } else {
                    Some(amt128 as u64)
                }
            },
        }
    }
}

/// Parse of an unsigned integer string: all digits, at least one, value at
/// most `u64::MAX`.
pub open spec fn spec_u64(s: Seq<char>) -> Option<u64> {
    if s.len() > 0 && digit_prefix_len(s) == s.len() && digits_val(s) <= u64::MAX {
        Some(digits_val(s) as u64)
    } else {
        None
    }
}

/// Decode an unsigned integer string.
pub fn parse_u64(s: &str) -> (r: Option<u64>)
    ensures
        r == spec_u64(s@),
{
    let total = s.unicode_len();
    proof {
        assert(s@.subrange(0, total as int) =~= s@);
    }
    if total == 0 {
        return None;
    }
    let d_end = digit_run(s, 0, total);
    if d_end != total {
        return None;
    }
    proof {
        lemma_digit_prefix_chars(s@);
        assert(all_digits(s@)) by {
            assert(forall|j: int| 0 <= j < s@.len() ==> is_digit_char(s@[j]));
        }
    }
    digits_to_value(s, 0, total)
}

/// Decode a whole quantity string into its list of coins.
///
/// Returns `Ok` exactly when the string matches the grammar (the empty
/// string decodes to no coins), with the decoded coins in segment order;
/// any other string is refused with `Malformed`.
pub fn parse_coins(s: &str) -> (r: Result<Vec<Coin>, CoinError>)
    ensures
        match r {
            Ok(v) => spec_parse_coins(s@) == Some(coin_views(v@)),
            Err(_) => spec_parse_coins(s@) is None,
        },
{
    let total = s.unicode_len();
    let mut out: Vec<Coin> = Vec::new();
    if total == 0 {
        assert(coin_views(out@) =~= Seq::<CoinView>::empty());
        return Ok(out);
    }
    let mut i: usize = 0;
    proof {
        assert(s@.skip(0) =~= s@);
        assert(coin_views(out@) =~= Seq::<CoinView>::empty());
        if spec_parse_coins(s@) is Some {
            assert(coin_views(out@) + spec_parse_coins(s@)->Some_0 =~= spec_parse_coins(
                s@,
            )->Some_0);
        }
    }
    loop
        invariant_except_break
            spec_parse_coins(s@) matches Some(all) ==> (spec_coins_ne(s@.skip(i as int)) matches
                Some(rest) && all == coin_views(out@) + rest),
        invariant
            0 <= i < total,
            total == s@.len(),
            spec_coins_ne(s@.skip(i as int)) is Some ==> spec_parse_coins(s@) is Some,
        ensures
            spec_parse_coins(s@) == Some(coin_views(out@)),
        decreases total - i,
    {
        let seg_end = segment_run(s, i, total);
        let ghost suffix = s@.skip(i as int);
        let ghost n = segment_len(suffix) as int;
        proof {
            lemma_segment_chars(suffix);
            if n >= suffix.len() {
                assert(s@.subrange(i as int, seg_end as int) =~= suffix);
            } else {
                assert(s@.subrange(i as int, seg_end as int) =~= suffix.take(n));
            }
        }
        match parse_segment(s, i, seg_end) {
            None => {
                assert(spec_coins_ne(suffix) is None);
                return Err(CoinError::Malformed);
            },
            Some(c) => {
                let ghost cv = c@;
                let ghost prev = out@;
                out.push(c);
                proof {
                    assert(coin_views(out@) =~= coin_views(prev) + seq![cv]);
                }
                if seg_end == total {
                    proof {
                        assert(n >= suffix.len());
                        assert(spec_coins_ne(suffix) == Some(seq![cv]));
                        assert(spec_parse_coins(s@) is Some);
                        assert(spec_parse_coins(s@)->Some_0 == coin_views(prev) + seq![cv]);
                        assert(spec_parse_coins(s@) == Some(coin_views(out@)));
                    }
                    break;
                }
                proof {
                    assert(n < suffix.len());
                    assert(suffix.skip(n + 1) =~= s@.skip(seg_end as int + 1));
                }
                i = seg_end + 1;
                if i >= total {
                    // a trailing comma leaves an empty, malformed last segment
                    proof {
                        assert(s@.skip(i as int).len() == 0);
                        assert(segment_len(s@.skip(i as int)) == 0);
                        assert(digit_prefix_len(s@.skip(i as int)) == 0);
                        assert(spec_coin(s@.skip(i as int)) is None);
                        assert(spec_coins_ne(s@.skip(i as int)) is None);
                    }
                    return Err(CoinError::Malformed);
                }
                proof {
                    assert(spec_coins_ne(suffix) matches Some(r) ==> r == seq![cv] + spec_coins_ne(
                        s@.skip(i as int),
                    ).unwrap());
                }
            },
        }
    }
    Ok(out)
}

} // verus!
