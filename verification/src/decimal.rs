//! Exact decimal-from-text parsing into fixed-point integers with eight
//! decimal places, so that price-level bookkeeping never relies on
//! floating-point equality. Accepted shape: one to eleven integer digits,
//! optionally a dot and one to eight fraction digits; anything else — and
//! nothing else — is rejected.

use vstd::prelude::*;

use crate::book::PriceLevel;

verus! {

/// Fixed-point scale: eight decimal places.
pub const SCALE: u64 = 100_000_000;

/// Most integer digits accepted; keeps every accepted value inside `u64`.
pub const MAX_INT_DIGITS: usize = 11;

pub open spec fn pow10(n: nat) -> int
    decreases n,
{
    if n == 0 {
        1
    } else {
        10 * pow10((n - 1) as nat)
    }
}

pub open spec fn is_digit(b: u8) -> bool {
    48 <= b && b <= 57
}

pub open spec fn all_digits(s: Seq<u8>) -> bool {
    forall|i: int| 0 <= i < s.len() ==> is_digit(s[i])
}

/// The number a digit string denotes, most significant first.
pub open spec fn digits_val(s: Seq<u8>) -> int
    decreases s.len(),
{
    if s.len() == 0 {
        0
    } else {
        digits_val(s.drop_last()) * 10 + (s.last() - 48)
    }
}

/// Index of the first dot, or the length if there is none.
pub open spec fn dot_pos(s: Seq<u8>) -> int
    decreases s.len(),
{
    if s.len() == 0 {
        0
    } else if s[0] == 46 {
        0
    } else {
        1 + dot_pos(s.skip(1))
    }
}

/// The accepted grammar.
pub open spec fn is_fixed_decimal(s: Seq<u8>) -> bool {
    let dp = dot_pos(s);
    if dp == s.len() {
        1 <= s.len() <= MAX_INT_DIGITS && all_digits(s)
    } else {
        &&& 1 <= dp <= MAX_INT_DIGITS
        &&& all_digits(s.take(dp))
        &&& 1 <= s.len() - dp - 1 <= 8
        &&& all_digits(s.skip(dp + 1))
    }
}

/// The fixed-point value an accepted text denotes.
pub open spec fn fixed_value(s: Seq<u8>) -> int {
    let dp = dot_pos(s);
    if dp == s.len() {
        digits_val(s) * (SCALE as int)
    } else {
        digits_val(s.take(dp)) * (SCALE as int) + digits_val(s.skip(dp + 1)) * pow10(
            (8 - (s.len() - dp - 1)) as nat,
        )
    }
}

proof fn lemma_dot_pos_at(s: Seq<u8>, i: int)
    requires
        0 <= i <= s.len(),
        forall|k: int| 0 <= k < i ==> s[k] != 46,
        i < s.len() ==> s[i] == 46,
    ensures
        dot_pos(s) == i,
    decreases s.len(),
{
    if s.len() == 0 {
    } else if i == 0 {
    } else {
        assert(s[0] != 46);
        let s1 = s.skip(1);
        assert forall|k: int| 0 <= k < i - 1 implies s1[k] != 46 by {
            assert(s1[k] == s[k + 1]);
        }
        if i - 1 < s1.len() {
            assert(s1[i - 1] == s[i]);
        }
        lemma_dot_pos_at(s1, i - 1);
    }
}

proof fn lemma_pow10_pos(n: nat)
    ensures
        pow10(n) >= 1,
    decreases n,
{
    if n > 0 {
        lemma_pow10_pos((n - 1) as nat);
    }
}

proof fn lemma_pow10_mono(a: nat, b: nat)
    requires
        a <= b,
    ensures
        pow10(a) <= pow10(b),
        pow10(a) >= 1,
    decreases b,
{
    lemma_pow10_pos(a);
    if a < b {
        lemma_pow10_mono(a, (b - 1) as nat);
        lemma_pow10_pos((b - 1) as nat);
    }
}

proof fn lemma_digits_val_bound(s: Seq<u8>)
    requires
        all_digits(s),
    ensures
        0 <= digits_val(s) < pow10(s.len() as nat),
    decreases s.len(),
{
    if s.len() == 0 {
    } else {
        let pre = s.drop_last();
        assert(all_digits(pre));
        lemma_digits_val_bound(pre);
        assert(pow10(s.len() as nat) == 10 * pow10(pre.len() as nat));
        assert(is_digit(s.last()));
    }
}

/// Small powers of ten, spelled out for the fraction multiplier.
proof fn lemma_pow10_values()
    ensures
        pow10(0) == 1,
        pow10(1) == 10,
        pow10(2) == 100,
        pow10(3) == 1000,
        pow10(4) == 10000,
        pow10(5) == 100000,
        pow10(6) == 1000000,
        pow10(7) == 10000000,
        pow10(8) == 100000000,
        pow10(9) == 1000000000,
        pow10(10) == 10000000000,
        pow10(11) == 100000000000,
{
    assert(pow10(0) == 1);
    assert(pow10(1) == 10);
    assert(pow10(2) == 100);
    assert(pow10(3) == 1000);
    assert(pow10(4) == 10000);
    assert(pow10(5) == 100000);
    assert(pow10(6) == 1000000);
    assert(pow10(7) == 10000000);
    assert(pow10(8) == 100000000);
    assert(pow10(9) == 1000000000);
    assert(pow10(10) == 10000000000);
    assert(pow10(11) == 100000000000);
}

/// Parses the digit run `s[from..to]`, or reports the offending byte.
fn parse_digit_run(s: &[u8], from: usize, to: usize) -> (r: Option<u64>)
    requires
        0 <= from <= to <= s@.len(),
        to - from <= MAX_INT_DIGITS,
    ensures
        match r {
            Some(v) => all_digits(s@.subrange(from as int, to as int)) && v == digits_val(
                s@.subrange(from as int, to as int),
            ),
            None => !all_digits(s@.subrange(from as int, to as int)),
        },
{
    let ghost run = s@.subrange(from as int, to as int);
    let mut acc: u64 = 0;
    let mut k = from;
    proof {
        assert(run.subrange(0, 0) =~= Seq::<u8>::empty());
        lemma_pow10_values();
    }
    while k < to
        invariant
            from <= k <= to,
            to <= s@.len(),
            to - from <= MAX_INT_DIGITS,
            run == s@.subrange(from as int, to as int),
            all_digits(run.subrange(0, k - from)),
            acc == digits_val(run.subrange(0, k - from)),
            acc < pow10((k - from) as nat),
        decreases to - k,
    {
        let b = s[k];
        proof {
            assert(run[k - from] == s@[k as int]);
        }
        if b < 48 || b > 57 {
            proof {
                assert(!is_digit(run[k - from]));
            }
            return None;
        }
        let ghost j = k - from;
        proof {
            lemma_pow10_values();
            lemma_pow10_mono(j as nat, 11);
            assert(acc <= 99999999999);
            assert(run.subrange(0, j + 1).drop_last() =~= run.subrange(0, j));
            assert(run.subrange(0, j + 1).last() == run[j]);
            assert forall|t: int| 0 <= t < j + 1 implies is_digit(#[trigger] run.subrange(0, j + 1)[t]) by {
                if t < j {
                    assert(run.subrange(0, j + 1)[t] == run.subrange(0, j)[t]);
                } else {
                    assert(run.subrange(0, j + 1)[t] == run[j]);
                }
            }
            lemma_digits_val_bound(run.subrange(0, j + 1));
        }
        acc = acc * 10 + (b - 48) as u64;
        k = k + 1;
        proof {
            assert(acc == digits_val(run.subrange(0, k - from)));
            assert(all_digits(run.subrange(0, k - from)));
        }
    }
    proof {
        assert(run.subrange(0, to - from) =~= run);
    }
    Some(acc)
}

/// Parses a decimal text into its exact fixed-point value: `Some` on
/// exactly the accepted grammar, `None` on everything else.
pub fn parse_fixed(s: &[u8]) -> (r: Option<u64>)
    ensures
        r.is_some() <==> is_fixed_decimal(s@),
        r.is_some() ==> r.unwrap() as int == fixed_value(s@),
{
    let n = s.len();
    let mut dp: usize = 0;
    while dp < n && s[dp] != 46
        invariant
            0 <= dp <= n,
            n == s@.len(),
            forall|k: int| 0 <= k < dp ==> s@[k] != 46,
        decreases n - dp,
    {
        dp = dp + 1;
    }
    proof {
        lemma_dot_pos_at(s@, dp as int);
        lemma_pow10_values();
    }
    if dp == 0 || dp > MAX_INT_DIGITS {
        return None;
    }
    let ival = match parse_digit_run(s, 0, dp) {
        Some(v) => v,
        None => {
            proof {
                if dp == n {
                    assert(s@.subrange(0, dp as int) =~= s@);
                } else {
                    assert(s@.subrange(0, dp as int) =~= s@.take(dp as int));
                }
            }
            return None;
        },
    };
    proof {
        lemma_digits_val_bound(s@.subrange(0, dp as int));
        lemma_pow10_mono(dp as nat, 11);
        assert(ival < pow10(11));
    }
    if dp == n {
        proof {
            assert(s@.subrange(0, dp as int) =~= s@);
        }
        return Some(ival * SCALE);
    }
    // a dot: parse the fraction
    let flen = n - dp - 1;
    if flen < 1 || flen > 8 {
        return None;
    }
    let facc = match parse_digit_run(s, dp + 1, n) {
        Some(v) => v,
        None => {
            proof {
                assert(s@.subrange(dp as int + 1, n as int) =~= s@.skip(dp as int + 1));
            }
            return None;
        },
    };
    proof {
        assert(s@.subrange(dp as int + 1, n as int) =~= s@.skip(dp as int + 1));
        assert(s@.subrange(0, dp as int) =~= s@.take(dp as int));
        lemma_digits_val_bound(s@.subrange(dp as int + 1, n as int));
    }
    let fracpart: u64 = if flen == 1 {
        facc * 10000000
    } else if flen == 2 {
        facc * 1000000
    } else if flen == 3 {
        facc * 100000
    } else if flen == 4 {
        facc * 10000
    } else if flen == 5 {
        facc * 1000
    } else if flen == 6 {
        facc * 100
    } else if flen == 7 {
        facc * 10
    } else {
        facc
    };
    proof {
        assert(fracpart as int == digits_val(s@.skip(dp as int + 1)) * pow10((8 - flen) as nat));
        assert(fracpart < 100000000);
        assert(ival * SCALE <= (100000000000 - 1) * 100000000);
    }
    Some(ival * SCALE + fracpart)
}

/// One raw level as the adapters hand it over: price and quantity texts.
pub struct RawLevel {
    pub price: Vec<u8>,
    pub qty: Vec<u8>,
}

/// What one raw level parses to, if both fields are accepted.
pub open spec fn parse_level_spec(p: Seq<u8>, q: Seq<u8>) -> Option<PriceLevel> {
    if is_fixed_decimal(p) && is_fixed_decimal(q) {
        Some(PriceLevel { price: fixed_value(p) as u64, quantity: fixed_value(q) as u64 })
    } else {
        None
    }
}

/// The well-formed levels of a raw batch, in order; malformed ones drop
/// out one by one.
pub open spec fn parsed_levels(rs: Seq<RawLevel>) -> Seq<PriceLevel>
    decreases rs.len(),
{
    if rs.len() == 0 {
        Seq::empty()
    } else {
        let tail = parsed_levels(rs.skip(1));
        match parse_level_spec(rs[0].price@, rs[0].qty@) {
            Some(l) => seq![l] + tail,
            None => tail,
        }
    }
}

/// Parses one raw level.
pub fn parse_level(raw: &RawLevel) -> (r: Option<PriceLevel>)
    ensures
        r == parse_level_spec(raw.price@, raw.qty@),
{
    let p = match parse_fixed(raw.price.as_slice()) {
        Some(v) => v,
        None => {
            return None;
        },
    };
    let q = match parse_fixed(raw.qty.as_slice()) {
        Some(v) => v,
        None => {
            return None;
        },
    };
    Some(PriceLevel { price: p, quantity: q })
}

/// Parses a whole raw batch: the well-formed levels in order, and how
/// many were rejected — rejections are counted and surfaced, never
/// silently dropped, and never abort the rest of the batch.
pub fn parse_levels(raw: &Vec<RawLevel>) -> (r: (Vec<PriceLevel>, usize))
    ensures
        r.0@ == parsed_levels(raw@),
        r.0@.len() + r.1 == raw@.len(),
{
    let n = raw.len();
    let mut out: Vec<PriceLevel> = Vec::new();
    let mut rejected: usize = 0;
    let mut i: usize = 0;
    proof {
        assert(raw@.skip(0) =~= raw@);
    }
    while i < n
        invariant
            0 <= i <= n,
            n == raw@.len(),
            out@.len() + rejected == i,
            parsed_levels(raw@) == out@ + parsed_levels(raw@.skip(i as int)),
        decreases n - i,
    {
        let ghost rest = raw@.skip(i as int);
        let ghost out0 = out@;
        proof {
            assert(rest[0] == raw@[i as int]);
            assert(rest.skip(1) =~= raw@.skip(i as int + 1));
        }
        match parse_level(&raw[i]) {
            Some(l) => {
                out.push(l);
                proof {
                    assert(out@ =~= out0 + seq![l]);
                    assert(out0 + (seq![l] + parsed_levels(raw@.skip(i as int + 1))) =~= (out0
                        + seq![l]) + parsed_levels(raw@.skip(i as int + 1)));
                }
            },
            None => {
                rejected = rejected + 1;
            },
        }
        i = i + 1;
    }
    proof {
        assert(raw@.skip(n as int) =~= Seq::<RawLevel>::empty());
        assert(out@ + Seq::<PriceLevel>::empty() =~= out@);
    }
    (out, rejected)
}

} // verus!
