//! Reading a field as a 64-bit signed integer, and recognising decimal numbers.
use vstd::prelude::*;

verus! {

pub const MINUS: u8 = 0x2d;

pub const PLUS: u8 = 0x2b;

pub open spec fn is_digit(c: u8) -> bool {
    0x30 <= c <= 0x39
}

pub open spec fn all_digits(s: Seq<u8>) -> bool {
    forall|i: int| 0 <= i < s.len() ==> is_digit(#[trigger] s[i])
}

/// The value of a run of decimal digits.
pub open spec fn digits_value(s: Seq<u8>) -> int
    decreases s.len(),
{
    if s.len() == 0 {
        0
    } else {
        digits_value(s.drop_last()) * 10 + (s.last() - 0x30)
    }
}

/// The digits of a field after an optional sign.
pub open spec fn unsigned_part(s: Seq<u8>) -> Seq<u8> {
    if s.len() > 0 && (s[0] == MINUS || s[0] == PLUS) {
        s.drop_first()
    } else {
        s
    }
}

pub open spec fn is_negative(s: Seq<u8>) -> bool {
    s.len() > 0 && s[0] == MINUS
}

/// The integer that a field spells: an optional `+` or `-` and one or more
/// decimal digits, with a value in the range of `i64`.
pub open spec fn integer_text(s: Seq<u8>) -> Option<i64> {
    let ds = unsigned_part(s);
    let v = if is_negative(s) { -digits_value(ds) } else { digits_value(ds) };
    if ds.len() == 0 || !all_digits(ds) || v < i64::MIN || v > i64::MAX {
        None
    } else {
        Some(v as i64)
    }
}

proof fn lemma_digits_nonneg(s: Seq<u8>)
    requires
        all_digits(s),
    ensures
        digits_value(s) >= 0,
    decreases s.len(),
{
    if s.len() > 0 {
        lemma_digits_nonneg(s.drop_last());
    }
}

/// A prefix of a run of digits is worth no more than the whole run.
proof fn lemma_digits_prefix(s: Seq<u8>, k: int)
    requires
        all_digits(s),
        0 <= k <= s.len(),
    ensures
        digits_value(s.take(k)) <= digits_value(s),
    decreases s.len(),
{
    if k < s.len() {
        assert(s.drop_last().take(k) =~= s.take(k));
        lemma_digits_prefix(s.drop_last(), k);
        lemma_digits_nonneg(s.drop_last());
    } else {
        assert(s.take(k) =~= s);
    }
}

/// Reads a field as an integer.
pub fn parse_integer(s: &[u8]) -> (r: Option<i64>)
    ensures
        r == integer_text(s@),
{
    let n = s.len();
    let start: usize = if n > 0 && (s[0] == MINUS || s[0] == PLUS) { 1 } else { 0 };
    let negative = n > 0 && s[0] == MINUS;
    let ghost ds = unsigned_part(s@);
    proof {
        assert(ds =~= s@.subrange(start as int, n as int));
    }
    if start == n {
        return None;
    }
    let mut acc: i128 = 0;
    let mut j: usize = start;
    while j < n
        invariant
            n == s.len(),
            start <= j <= n,
            ds == s@.subrange(start as int, n as int),
            ds == unsigned_part(s@),
            negative == is_negative(s@),
            all_digits(ds.take(j - start)),
            acc == digits_value(ds.take(j - start)),
            0 <= acc <= 0x8000_0000_0000_0000,
        decreases n - j,
    {
        let c = s[j];
        proof {
            assert(ds.take(j - start + 1).drop_last() =~= ds.take(j - start));
            assert(ds.take(j - start + 1).last() == c);
        }
        if c < 0x30 || c > 0x39 {
            assert(!is_digit(ds[j - start]));
            return None;
        }
        acc = acc * 10 + (c - 0x30) as i128;
        j += 1;
        assert(all_digits(ds.take(j - start)));
        if acc > 0x8000_0000_0000_0000 {
            proof {
                if all_digits(ds) {
                    lemma_digits_prefix(ds, j - start);
                }
            }
            return None;
        }
    }
    proof {
        assert(ds.take(n - start) =~= ds);
    }
    if negative {
        Some((-acc) as i64)
    } else if acc > 0x7fff_ffff_ffff_ffff {
        None
    } else {
        Some(acc as i64)
    }
}

pub const POINT: u8 = 0x2e;

/// Where a recogniser of decimal numbers stands after a prefix of a field.
#[derive(Clone, Copy, Debug, PartialEq, Eq, Structural)]
pub enum DecState {
    /// Nothing read.
    Empty,
    /// A sign read.
    Sign,
    /// Digits of the integer part read.
    Whole,
    /// A point read with no digit before it.
    Point,
    /// A digit and a point read, then maybe more digits.
    Fraction,
    /// No continuation makes a number.
    Dead,
}

pub open spec fn dec_step(st: DecState, c: u8) -> DecState {
    match st {
        DecState::Empty | DecState::Sign => {
            if is_digit(c) {
                DecState::Whole
            } else if c == POINT {
                DecState::Point
            } else if st == DecState::Empty && (c == MINUS || c == PLUS) {
                DecState::Sign
            } else {
                DecState::Dead
            }
        },
        DecState::Whole => {
            if is_digit(c) {
                DecState::Whole
            } else if c == POINT {
                DecState::Fraction
            } else {
                DecState::Dead
            }
        },
        DecState::Point | DecState::Fraction => if is_digit(c) { DecState::Fraction } else { DecState::Dead },
        DecState::Dead => DecState::Dead,
    }
}

pub open spec fn dec_run(s: Seq<u8>) -> DecState
    decreases s.len(),
{
    if s.len() == 0 {
        DecState::Empty
    } else {
        dec_step(dec_run(s.drop_last()), s.last())
    }
}

/// A decimal number: an optional sign, then digits with at most one point and
/// at least one digit. Exponent notation is not part of this syntax.
pub open spec fn is_decimal(s: Seq<u8>) -> bool {
    let st = dec_run(s);
    st == DecState::Whole || st == DecState::Fraction
}

/// The value of the digits that come before any point.
pub open spec fn whole_value(s: Seq<u8>) -> int
    decreases s.len(),
{
    if s.len() == 0 {
        0
    } else if is_digit(s.last()) && !s.drop_last().contains(POINT) {
        whole_value(s.drop_last()) * 10 + (s.last() - 0x30)
    } else {
        whole_value(s.drop_last())
    }
}

/// The integer part of a decimal number, its fraction cut off (towards zero),
/// where that lies in the range of `i64`.
pub open spec fn decimal_whole(s: Seq<u8>) -> Option<i64> {
    let w = whole_value(unsigned_part(s));
    let v = if is_negative(s) { -w } else { w };
    if !is_decimal(s) || v < i64::MIN || v > i64::MAX {
        None
    } else {
        Some(v as i64)
    }
}

fn dec_next(st: DecState, c: u8) -> (r: DecState)
    ensures
        r == dec_step(st, c),
{
    let digit = 0x30 <= c && c <= 0x39;
    match st {
        DecState::Empty | DecState::Sign => {
            if digit {
                DecState::Whole
            } else if c == POINT {
                DecState::Point
            } else if st == DecState::Empty && (c == MINUS || c == PLUS) {
                DecState::Sign
            } else {
                DecState::Dead
            }
        },
        DecState::Whole => {
            if digit {
                DecState::Whole
            } else if c == POINT {
                DecState::Fraction
            } else {
                DecState::Dead
            }
        },
        DecState::Point | DecState::Fraction => if digit { DecState::Fraction } else { DecState::Dead },
        DecState::Dead => DecState::Dead,
    }
}

/// Whether a field is a decimal number.
pub fn is_decimal_text(s: &[u8]) -> (r: bool)
    ensures
        r == is_decimal(s@),
{
    let mut st = DecState::Empty;
    let mut i: usize = 0;
    proof {
        assert(s@.take(0) =~= Seq::<u8>::empty());
    }
    while i < s.len()
        invariant
            0 <= i <= s.len(),
            st == dec_run(s@.take(i as int)),
        decreases s.len() - i,
    {
        proof {
            assert(s@.take(i + 1).drop_last() =~= s@.take(i as int));
        }
        st = dec_next(st, s[i]);
        i += 1;
    }
    proof {
        assert(s@.take(s.len() as int) =~= s@);
    }
    match st {
        DecState::Whole | DecState::Fraction => true,
        _ => false,
    }
}

proof fn lemma_whole_nonneg(s: Seq<u8>)
    ensures
        whole_value(s) >= 0,
    decreases s.len(),
{
    if s.len() > 0 {
        lemma_whole_nonneg(s.drop_last());
    }
}

/// Reading further never lowers the value of the whole part.
proof fn lemma_whole_prefix(s: Seq<u8>, k: int)
    requires
        0 <= k <= s.len(),
    ensures
        whole_value(s.take(k)) <= whole_value(s),
    decreases s.len(),
{
    if k < s.len() {
        assert(s.drop_last().take(k) =~= s.take(k));
        lemma_whole_prefix(s.drop_last(), k);
        lemma_whole_nonneg(s.drop_last());
    } else {
        assert(s.take(k) =~= s);
    }
}

/// Past a point, no byte changes the value of the whole part.
proof fn lemma_whole_after_point(s: Seq<u8>, j: int, m: int)
    requires
        0 <= j < m <= s.len(),
        s[j] == POINT,
    ensures
        whole_value(s.take(m)) == whole_value(s.take(j)),
    decreases m - j,
{
    let p = s.take(m);
    assert(p.drop_last() =~= s.take(m - 1));
    if m - 1 > j {
        lemma_whole_after_point(s, j, m - 1);
        assert(p.drop_last()[j] == POINT);
        assert(p.drop_last().contains(POINT));
    } else {
        assert(p.last() == POINT);
    }
}

/// Reads a decimal number and keeps its integer part.
pub fn parse_decimal_whole(s: &[u8]) -> (r: Option<i64>)
    ensures
        r == decimal_whole(s@),
{
    if !is_decimal_text(s) {
        return None;
    }
    let n = s.len();
    let start: usize = if n > 0 && (s[0] == MINUS || s[0] == PLUS) { 1 } else { 0 };
    let negative = n > 0 && s[0] == MINUS;
    let ghost u = unsigned_part(s@);
    proof {
        assert(u =~= s@.subrange(start as int, n as int));
        assert(u.take(0) =~= Seq::<u8>::empty());
    }
    let mut acc: i128 = 0;
    let mut j: usize = start;
    loop
        invariant
            n == s.len(),
            start <= j <= n,
            u == s@.subrange(start as int, n as int),
            u == unsigned_part(s@),
            negative == is_negative(s@),
            is_decimal(s@),
            !u.take(j - start).contains(POINT),
            acc == whole_value(u.take(j - start)),
            0 <= acc <= 0x8000_0000_0000_0000,
        ensures
            acc == whole_value(u),
            0 <= acc <= 0x8000_0000_0000_0000,
        decreases n - j,
    {
        if j >= n {
            proof {
                assert(u.take(n - start) =~= u);
            }
            break;
        }
        let c = s[j];
        proof {
            assert(u.take(j - start + 1).drop_last() =~= u.take(j - start));
            assert(u.take(j - start + 1).last() == c);
        }
        if c == POINT {
            proof {
                assert(u[j - start] == POINT);
                lemma_whole_after_point(u, j - start, u.len() as int);
                assert(u.take(u.len() as int) =~= u);
            }
            break;
        }
        if c >= 0x30 && c <= 0x39 {
            acc = acc * 10 + (c - 0x30) as i128;
        }
        j += 1;
        proof {
            let t = u.take(j - start);
            assert(t.drop_last() =~= u.take(j - start - 1));
            if t.contains(POINT) {
                let q = choose|q: int| 0 <= q < t.len() && #[trigger] t[q] == POINT;
                assert(q != t.len() - 1);
                assert(t.drop_last()[q] == POINT);
            }
        }
        if acc > 0x8000_0000_0000_0000 {
            proof {
                lemma_whole_prefix(u, j - start);
            }
            return None;
        }
    }
    if negative {
        Some((-acc) as i64)
    } else if acc > 0x7fff_ffff_ffff_ffff {
        None
    } else {
        Some(acc as i64)
    }
}

} // verus!
