//! The textual format of the brightness control files: whitespace-trimmed
//! decimal integers, with an optional leading sign, and the decimal text
//! written back.
//!
//! Everything here is stated over `Seq<u8>`: the control files hold plain
//! ASCII digits, and a byte that is not one simply fails to parse.

use vstd::prelude::*;

verus! {

/// The ASCII whitespace bytes stripped from both ends of a control file's
/// contents: tab, line feed, vertical tab, form feed, carriage return, space.
pub open spec fn is_space_spec(b: u8) -> bool {
    b == 32 || b == 9 || b == 10 || b == 11 || b == 12 || b == 13
}

/// An ASCII decimal digit.
pub open spec fn is_digit_spec(b: u8) -> bool {
    48 <= b <= 57
}

pub open spec fn trim_start_spec(s: Seq<u8>) -> Seq<u8>
    decreases s.len(),
{
    if s.len() > 0 && is_space_spec(s[0]) {
        trim_start_spec(s.drop_first())
    } else {
        s
    }
}

pub open spec fn trim_end_spec(s: Seq<u8>) -> Seq<u8>
    decreases s.len(),
{
    if s.len() > 0 && is_space_spec(s.last()) {
        trim_end_spec(s.drop_last())
    } else {
        s
    }
}

/// `s` with whitespace removed from both ends.
pub open spec fn trimmed_spec(s: Seq<u8>) -> Seq<u8> {
    trim_end_spec(trim_start_spec(s))
}

pub open spec fn all_digits(s: Seq<u8>) -> bool {
    forall|i: int| 0 <= i < s.len() ==> is_digit_spec(s[i])
}

/// The value of a sequence of decimal digits, most significant first.
pub open spec fn digits_value(s: Seq<u8>) -> int
    decreases s.len(),
{
    if s.len() == 0 {
        0
    } else {
        10 * digits_value(s.drop_last()) + (s.last() - 48)
    }
}

/// Whether `s` starts with an explicit sign byte (`+` or `-`).
pub open spec fn has_sign(s: Seq<u8>) -> bool {
    s.len() > 0 && (s[0] == 43 || s[0] == 45)
}

/// The digits of a signed numeral: `s` with a leading `+` or `-` removed.
pub open spec fn body_of_signed(s: Seq<u8>) -> Seq<u8> {
    if has_sign(s) {
        s.drop_first()
    } else {
        s
    }
}

pub open spec fn sign_of(s: Seq<u8>) -> int {
    if s.len() > 0 && s[0] == 45 {
        -1
    } else {
        1
    }
}

/// A signed decimal numeral: an optional sign followed by at least one digit.
pub open spec fn is_signed_text(s: Seq<u8>) -> bool {
    body_of_signed(s).len() > 0 && all_digits(body_of_signed(s))
}

pub open spec fn signed_value(s: Seq<u8>) -> int {
    sign_of(s) * digits_value(body_of_signed(s))
}

/// The digits of an unsigned numeral: only a leading `+` is accepted.
pub open spec fn body_of_unsigned(s: Seq<u8>) -> Seq<u8> {
    if s.len() > 0 && s[0] == 43 {
        s.drop_first()
    } else {
        s
    }
}

pub open spec fn is_unsigned_text(s: Seq<u8>) -> bool {
    body_of_unsigned(s).len() > 0 && all_digits(body_of_unsigned(s))
}

pub open spec fn unsigned_value(s: Seq<u8>) -> int {
    digits_value(body_of_unsigned(s))
}

/// What parsing `s` as an `i32` yields: the trimmed text must be a signed
/// numeral whose value fits, exactly as `str::parse::<i32>` demands.
pub open spec fn parsed_i32(s: Seq<u8>) -> Option<i32> {
    let t = trimmed_spec(s);
    if is_signed_text(t) && -0x8000_0000 <= signed_value(t) <= 0x7fff_ffff {
        Some(signed_value(t) as i32)
    } else {
        None
    }
}

/// What parsing `s` as a `u32` yields: the trimmed text must be an unsigned
/// numeral whose value fits, exactly as `str::parse::<u32>` demands.
pub open spec fn parsed_u32(s: Seq<u8>) -> Option<u32> {
    let t = trimmed_spec(s);
    if is_unsigned_text(t) && unsigned_value(t) <= 0xffff_ffff {
        Some(unsigned_value(t) as u32)
    } else {
        None
    }
}

/// The decimal digits of `n`, most significant first, with no sign and no
/// leading zero (except for `n == 0` itself).
pub open spec fn dec_digits(n: nat) -> Seq<u8>
    decreases n,
{
    if n < 10 {
        seq![(n + 48) as u8]
    } else {
        dec_digits(n / 10).push((n % 10 + 48) as u8)
    }
}

proof fn lemma_trim_start_at(s: Seq<u8>, k: int)
    requires
        0 <= k <= s.len(),
        forall|i: int| 0 <= i < k ==> is_space_spec(s[i]),
        k < s.len() ==> !is_space_spec(s[k]),
    ensures
        trim_start_spec(s) == s.subrange(k, s.len() as int),
    decreases k,
{
    if k == 0 {
        assert(s.subrange(0, s.len() as int) =~= s);
    } else {
        let s1 = s.drop_first();
        assert forall|i: int| 0 <= i < k - 1 implies is_space_spec(s1[i]) by {
            assert(s1[i] == s[i + 1]);
        }
        lemma_trim_start_at(s1, k - 1);
        assert(s1.subrange(k - 1, s1.len() as int) =~= s.subrange(k, s.len() as int));
    }
}

proof fn lemma_trim_end_at(s: Seq<u8>, m: int)
    requires
        0 <= m <= s.len(),
        forall|i: int| m <= i < s.len() ==> is_space_spec(s[i]),
        m > 0 ==> !is_space_spec(s[m - 1]),
    ensures
        trim_end_spec(s) == s.subrange(0, m),
    decreases s.len() - m,
{
    if m == s.len() {
        assert(s.subrange(0, m) =~= s);
    } else {
        let s1 = s.drop_last();
        assert forall|i: int| m <= i < s1.len() implies is_space_spec(s1[i]) by {
            assert(s1[i] == s[i]);
        }
        lemma_trim_end_at(s1, m);
        assert(s1.subrange(0, m) =~= s.subrange(0, m));
    }
}

proof fn lemma_digits_value_nonneg(s: Seq<u8>)
    requires
        all_digits(s),
    ensures
        digits_value(s) >= 0,
    decreases s.len(),
{
    if s.len() > 0 {
        let s1 = s.drop_last();
        assert forall|i: int| 0 <= i < s1.len() implies is_digit_spec(s1[i]) by {
            assert(s1[i] == s[i]);
        }
        lemma_digits_value_nonneg(s1);
    }
}

/// The trim bounds of `s`: the bytes of `s` in `[lo, hi)` are exactly the
/// whitespace-trimmed contents.
fn trim_bounds(s: &[u8]) -> (r: (usize, usize))
    ensures
        r.0 <= r.1 <= s@.len(),
        trimmed_spec(s@) == s@.subrange(r.0 as int, r.1 as int),
{
    let n: usize = s.len();
    let mut lo: usize = 0;
    while lo < n && (s[lo] == 32 || s[lo] == 9 || s[lo] == 10 || s[lo] == 11 || s[lo] == 12
        || s[lo] == 13)
        invariant
            lo <= n,
            n == s@.len(),
            forall|i: int| 0 <= i < lo ==> is_space_spec(s@[i]),
        decreases n - lo,
    {
        lo = lo + 1;
    }
    let mut hi: usize = n;
    while hi > lo && (s[hi - 1] == 32 || s[hi - 1] == 9 || s[hi - 1] == 10 || s[hi - 1] == 11
        || s[hi - 1] == 12 || s[hi - 1] == 13)
        invariant
            lo <= hi <= n,
            n == s@.len(),
            lo < n ==> !is_space_spec(s@[lo as int]),
            forall|i: int| hi <= i < n ==> is_space_spec(s@[i]),
        decreases hi,
    {
        hi = hi - 1;
    }
    proof {
        lemma_trim_start_at(s@, lo as int);
        let u = s@.subrange(lo as int, n as int);
        assert forall|i: int| hi - lo <= i < u.len() implies is_space_spec(u[i]) by {
            assert(u[i] == s@[lo + i]);
        }
        if hi > lo {
            assert(u[hi - lo - 1] == s@[hi - 1]);
        }
        lemma_trim_end_at(u, hi - lo);
        assert(u.subrange(0, hi - lo) =~= s@.subrange(lo as int, hi as int));
    }
    (lo, hi)
}

/// Reads the digit run `s[from..to]`. `None` when the run is empty or holds
/// a non-digit; otherwise the run's value, capped at `0x1_0000_0000` when it
/// does not fit in 32 bits.
fn scan_digits(s: &[u8], from: usize, to: usize) -> (r: Option<u64>)
    requires
        from <= to <= s@.len(),
    ensures
        ({
            let d = s@.subrange(from as int, to as int);
            match r {
                None => !(d.len() > 0 && all_digits(d)),
                Some(v) => d.len() > 0 && all_digits(d) && v as int == (if digits_value(d)
                    <= 0xffff_ffff {
                    digits_value(d)
                } else {
                    0x1_0000_0000int
                }),
            }
        }),
{
    if from == to {
        return None;
    }
    let ghost d = s@.subrange(from as int, to as int);
    let mut acc: u64 = 0;
    let mut i: usize = from;
    while i < to
        invariant
            from <= i <= to <= s@.len(),
            d == s@.subrange(from as int, to as int),
            all_digits(d.subrange(0, i - from)),
            acc as int == (if digits_value(d.subrange(0, i - from)) <= 0xffff_ffff {
                digits_value(d.subrange(0, i - from))
            } else {
                0x1_0000_0000int
            }),
        decreases to - i,
    {
        let c: u8 = s[i];
        if c < 48 || c > 57 {
            proof {
                assert(d[i - from] == s@[i as int]);
                assert(!is_digit_spec(d[i - from]));
            }
            return None;
        }
        let ghost p = d.subrange(0, i - from);
        let ghost p2 = d.subrange(0, i + 1 - from);
        proof {
            assert(p2 =~= p.push(d[i - from]));
            assert(p2.drop_last() =~= p);
            assert(d[i - from] == s@[i as int]);
            assert forall|j: int| 0 <= j < p2.len() implies is_digit_spec(p2[j]) by {
                if j < p.len() {
                    assert(p2[j] == p[j]);
                } else {
                    assert(p2[j] == d[i - from]);
                }
            }
            lemma_digits_value_nonneg(p);
            assert(digits_value(p2) == 10 * digits_value(p) + (c - 48));
        }
        let digit: u64 = (c - 48) as u64;
        let next: u64 = if acc > 0xffff_ffff {
            0x1_0000_0000
        } else {
            let t: u64 = acc * 10 + digit;
            if t > 0xffff_ffff {
                0x1_0000_0000
            } else {
                t
            }
        };
        acc = next;
        i = i + 1;
    }
    proof {
        assert(d.subrange(0, to - from) =~= d);
    }
    Some(acc)
}

/// Parses `s` as a whitespace-trimmed signed decimal integer, exactly as
/// the brightness files are read: `None` on empty, malformed or
/// out-of-range text.
pub fn parse_i32(s: &[u8]) -> (r: Option<i32>)
    ensures
        r == parsed_i32(s@),
{
    let (lo, hi) = trim_bounds(s);
    let ghost t = trimmed_spec(s@);
    if lo == hi {
        return None;
    }
    let mut i: usize = lo;
    let mut neg: bool = false;
    let c0: u8 = s[lo];
    if c0 == 43 {
        i = i + 1;
    } else if c0 == 45 {
        neg = true;
        i = i + 1;
    }
    proof {
        assert(t[0] == s@[lo as int]);
        assert(body_of_signed(t) =~= s@.subrange(i as int, hi as int));
    }
    match scan_digits(s, i, hi) {
        None => None,
        Some(v) => {
            proof {
                lemma_digits_value_nonneg(body_of_signed(t));
            }
            if neg {
                if v > 0x8000_0000 {
                    None
                } else if v == 0x8000_0000 {
                    Some(i32::MIN)
                } else {
                    Some(-(v as i32))
                }
            } else {
                if v > 0x7fff_ffff {
                    None
                } else {
                    Some(v as i32)
                }
            }
        },
    }
}

/// Parses `s` as a whitespace-trimmed unsigned decimal integer, as the
/// percentage amount flag is read: a leading `-` is malformed.
pub fn parse_u32(s: &[u8]) -> (r: Option<u32>)
    ensures
        r == parsed_u32(s@),
{
    let (lo, hi) = trim_bounds(s);
    let ghost t = trimmed_spec(s@);
    if lo == hi {
        return None;
    }
    let mut i: usize = lo;
    if s[lo] == 43 {
        i = i + 1;
    }
    proof {
        assert(t[0] == s@[lo as int]);
        assert(body_of_unsigned(t) =~= s@.subrange(i as int, hi as int));
    }
    match scan_digits(s, i, hi) {
        None => None,
        Some(v) => {
            if v > 0xffff_ffff {
                None
            } else {
                Some(v as u32)
            }
        },
    }
}

/// The decimal digits of a non-negative value, most significant first.
pub fn render_decimal(v: i32) -> (r: Vec<u8>)
    requires
        0 <= v,
    ensures
        r@ == dec_digits(v as nat),
{
    let mut out: Vec<u8> = Vec::new();
    let d0: u8 = (v % 10) as u8 + 48;
    out.insert(0, d0);
    let mut m: i32 = v / 10;
    proof {
        if v < 10 {
            assert(out@ =~= dec_digits(v as nat));
        } else {
            assert(dec_digits((v as nat) / 10).push(d0) =~= dec_digits((v as nat) / 10) + out@);
        }
    }
    while m > 0
        invariant
            0 <= m,
            m > 0 ==> dec_digits(v as nat) == dec_digits(m as nat) + out@,
            m == 0 ==> dec_digits(v as nat) == out@,
        decreases m,
    {
        let d: u8 = (m % 10) as u8 + 48;
        let ghost prev = out@;
        out.insert(0, d);
        proof {
            if m >= 10 {
                assert(dec_digits((m as nat) / 10).push(d) + prev =~= dec_digits((m as nat) / 10)
                    + out@);
            } else {
                assert(dec_digits(m as nat) + prev =~= out@);
            }
        }
        m = m / 10;
    }
    out
}

/// The exact bytes written back to the brightness control file: the new
/// value in decimal followed by one line feed.
pub fn brightness_file_text(v: i32) -> (r: Vec<u8>)
    requires
        0 <= v,
    ensures
        r@ == dec_digits(v as nat).push(10u8),
{
    let mut out: Vec<u8> = render_decimal(v);
    out.push(10);
    out
}

} // verus!
