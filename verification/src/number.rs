use vstd::prelude::*;

use crate::fault::Fault;
use crate::token::WSC;

verus! {

/// The index of the first line feed in `s` at or after `i`, if there is one.
pub open spec fn first_l_from(s: Seq<WSC>, i: int) -> Option<int>
    decreases s.len() - i,
{
    if i < 0 || i >= s.len() {
        None
    } else if s[i] == WSC::L {
        Some(i)
    } else {
        first_l_from(s, i + 1)
    }
}

/// `first_l_from` finds the first line feed and nothing else.
pub proof fn lemma_first_l_from(s: Seq<WSC>, i: int)
    requires
        0 <= i,
    ensures
        first_l_from(s, i) matches Some(j) ==> i <= j < s.len() && s[j] == WSC::L && forall|
            k: int,
        |
            i <= k < j ==> s[k] != WSC::L,
        first_l_from(s, i) is None ==> forall|k: int| i <= k < s.len() ==> s[k] != WSC::L,
    decreases s.len() - i,
{
    if i < s.len() && s[i] != WSC::L {
        lemma_first_l_from(s, i + 1);
    }
}

/// The value of one binary digit: a tab is one, a space is zero.
pub open spec fn bit(t: WSC) -> int {
    if t == WSC::T {
        1
    } else {
        0
    }
}

/// The value of a sequence of binary digits, most significant first.
pub open spec fn binary_value(d: Seq<WSC>) -> int
    decreases d.len(),
{
    if d.len() == 0 {
        0
    } else {
        2 * binary_value(d.drop_last()) + bit(d.last())
    }
}

/// Where the digits of a number literal end: its first line feed after the
/// sign, or the end of the sequence.
pub open spec fn digits_end(v: Seq<WSC>) -> int {
    match first_l_from(v, 1) {
        Some(j) => j,
        None => v.len() as int,
    }
}

/// The digits of a number literal: the symbols between the sign and the first
/// line feed after it.
pub open spec fn digits_of(v: Seq<WSC>) -> Seq<WSC> {
    v.subrange(1, digits_end(v))
}

/// The number that a literal (sign, digits, line feed) stands for.
pub open spec fn spec_calc_num(v: Seq<WSC>) -> int {
    if v[0] == WSC::T {
        -binary_value(digits_of(v))
    } else {
        binary_value(digits_of(v))
    }
}

/// A literal can be read: it has a sign symbol and its magnitude fits in `i32`.
pub open spec fn calc_num_defined(v: Seq<WSC>) -> bool {
    &&& v.len() > 0
    &&& v[0] != WSC::L
    &&& binary_value(digits_of(v)) <= i32::MAX
}

pub proof fn lemma_binary_nonneg(d: Seq<WSC>)
    ensures
        binary_value(d) >= 0,
    decreases d.len(),
{
    if d.len() > 0 {
        lemma_binary_nonneg(d.drop_last());
    }
}

/// A prefix of a digit sequence is worth no more than the whole.
pub proof fn lemma_binary_prefix_le(d: Seq<WSC>, k: int)
    requires
        0 <= k <= d.len(),
    ensures
        binary_value(d.take(k)) <= binary_value(d),
    decreases d.len(),
{
    if k == d.len() {
        assert(d.take(k) =~= d);
    } else {
        lemma_binary_prefix_le(d.drop_last(), k);
        assert(d.drop_last().take(k) =~= d.take(k));
        lemma_binary_nonneg(d.drop_last());
    }
}

/// Whether the magnitude of a literal fits in `i32`.
pub fn number_fits(v: &Vec<WSC>) -> (r: bool)
    requires
        v.len() > 0,
    ensures
        r == (binary_value(digits_of(v@)) <= i32::MAX),
{
    proof {
        lemma_first_l_from(v@, 1);
    }
    let ghost e = digits_end(v@);
    let mut acc: u32 = 0;
    let mut k: usize = 1;
    while k < v.len() && v[k] != WSC::L
        invariant
            1 <= k <= e <= v.len(),
            e == digits_end(v@),
            forall|j: int| 1 <= j < k ==> v@[j] != WSC::L,
            first_l_from(v@, 1) matches Some(j) ==> 1 <= j < v.len() && v@[j] == WSC::L
                && forall|m: int| 1 <= m < j ==> v@[m] != WSC::L,
            first_l_from(v@, 1) is None ==> forall|m: int| 1 <= m < v.len() ==> v@[m] != WSC::L,
            acc == binary_value(v@.subrange(1, k as int)),
            acc <= i32::MAX,
        decreases v.len() - k,
    {
        assert(k < e) by {
            if e == k {
                if first_l_from(v@, 1) is None {
                } else {
                }
            }
        }
        assert(v@.subrange(1, k + 1).drop_last() =~= v@.subrange(1, k as int));
        let b: u32 = if v[k] == WSC::T { 1 } else { 0 };
        let next: u32 = acc * 2 + b;
        if next > 0x7fff_ffff {
            proof {
                let d = digits_of(v@);
                assert(d.take(k as int) =~= v@.subrange(1, k + 1));
                lemma_binary_prefix_le(d, k as int);
            }
            return false;
        }
        acc = next;
        k += 1;
    }
    assert(k == e);
    assert(v@.subrange(1, k as int) =~= digits_of(v@));
    true
}

/// Reads a number literal: a sign (space positive, tab negative), then binary
/// digits (space 0, tab 1) up to the first line feed or the end.
pub fn calc_num(v: Vec<WSC>) -> (r: i32)
    requires
        calc_num_defined(v@),
    ensures
        r == spec_calc_num(v@),
{
    proof {
        lemma_first_l_from(v@, 1);
    }
    let ghost e = digits_end(v@);
    let ghost d = digits_of(v@);
    let mut ans: i32 = 0;
    let mut k: usize = 1;
    while k < v.len() && v[k] != WSC::L
        invariant
            1 <= k <= e <= v.len(),
            e == digits_end(v@),
            d == digits_of(v@),
            binary_value(d) <= i32::MAX,
            forall|j: int| 1 <= j < k ==> v@[j] != WSC::L,
            first_l_from(v@, 1) matches Some(j) ==> 1 <= j < v.len() && v@[j] == WSC::L
                && forall|m: int| 1 <= m < j ==> v@[m] != WSC::L,
            first_l_from(v@, 1) is None ==> forall|m: int| 1 <= m < v.len() ==> v@[m] != WSC::L,
            ans == binary_value(v@.subrange(1, k as int)),
        decreases v.len() - k,
    {
        assert(k < e) by {
            if e == k {
                if first_l_from(v@, 1) is None {
                } else {
                }
            }
        }
        assert(v@.subrange(1, k + 1).drop_last() =~= v@.subrange(1, k as int));
        proof {
            assert(d.take(k as int) =~= v@.subrange(1, k + 1));
            lemma_binary_prefix_le(d, k as int);
            lemma_binary_nonneg(v@.subrange(1, k as int));
        }
        if v[k] == WSC::T {
            ans = ans * 2 + 1;
        } else {
            ans = ans * 2;
        }
        k += 1;
    }
    assert(k == e);
    assert(v@.subrange(1, k as int) =~= d);
    proof {
        lemma_binary_nonneg(d);
    }
    if v[0] == WSC::T {
        ans = -ans;
    }
    ans
}

/// What reading a literal gives: its number, or why it cannot be read.
pub open spec fn literal_result(v: Seq<WSC>) -> Result<i32, Fault> {
    if v.len() == 0 || v[0] == WSC::L {
        Err(Fault::InvalidNumber)
    } else if binary_value(digits_of(v)) > i32::MAX {
        Err(Fault::Overflow)
    } else {
        Ok(spec_calc_num(v) as i32)
    }
}

/// Reads a number literal, or says why it cannot be read: no sign symbol, or a
/// magnitude beyond `i32`.
pub fn checked_calc_num(v: Vec<WSC>) -> (r: Result<i32, Fault>)
    ensures
        r == literal_result(v@),
{
    if v.len() == 0 || v[0] == WSC::L {
        return Err(Fault::InvalidNumber);
    }
    if !number_fits(&v) {
        return Err(Fault::Overflow);
    }
    Ok(calc_num(v))
}


/// The binary digits of a natural number, most significant first, with no
/// leading zero.
pub open spec fn binary_digits(m: nat) -> Seq<WSC>
    decreases m,
{
    if m == 0 {
        Seq::empty()
    } else {
        binary_digits(m / 2).push(if m % 2 == 1 { WSC::T } else { WSC::S })
    }
}

/// The literal that writes an integer: its sign, its binary digits and a line
/// feed.
pub open spec fn number_code(n: int) -> Seq<WSC> {
    let sign = if n < 0 { WSC::T } else { WSC::S };
    let mag: nat = if n < 0 { (-n) as nat } else { n as nat };
    seq![sign] + binary_digits(mag) + seq![WSC::L]
}

pub proof fn lemma_binary_digits(m: nat)
    ensures
        binary_value(binary_digits(m)) == m,
        forall|k: int| 0 <= k < binary_digits(m).len() ==> binary_digits(m)[k] != WSC::L,
    decreases m,
{
    if m > 0 {
        lemma_binary_digits(m / 2);
        assert(binary_digits(m).drop_last() =~= binary_digits(m / 2));
    }
}

/// Every integer whose magnitude fits in `i32` reads back from the literal that
/// writes it.
pub proof fn lemma_calc_num_of_code(n: int)
    requires
        -i32::MAX <= n <= i32::MAX,
    ensures
        calc_num_defined(number_code(n)),
        spec_calc_num(number_code(n)) == n,
{
    let mag: nat = if n < 0 { (-n) as nat } else { n as nat };
    let c = number_code(n);
    let b = binary_digits(mag);
    lemma_binary_digits(mag);
    lemma_first_l_from(c, 1);
    assert(c[b.len() as int + 1] == WSC::L);
    assert forall|k: int| 1 <= k < b.len() + 1 implies c[k] != WSC::L by {
        assert(c[k] == b[k - 1]);
    }
    assert(first_l_from(c, 1) == Some(b.len() as int + 1)) by {
        match first_l_from(c, 1) {
            Some(j) => {
                assert(j == b.len() as int + 1);
            },
            None => {
                assert(c[b.len() as int + 1] == WSC::L);
            },
        }
    }
    assert(digits_of(c) =~= b);
}

/// A tab sign negates what a space sign gives.
pub proof fn lemma_calc_num_sign(d: Seq<WSC>)
    ensures
        spec_calc_num(seq![WSC::T] + d) == -spec_calc_num(seq![WSC::S] + d),
{
    let a = seq![WSC::T] + d;
    let b = seq![WSC::S] + d;
    lemma_first_l_from_tail(d, 1);
    lemma_first_l_from(a, 1);
    assert(digits_of(a) =~= digits_of(b)) by {
        assert forall|i: int| 0 <= i < digits_of(a).len() implies digits_of(a)[i] == digits_of(
            b,
        )[i] by {
            assert(a[i + 1] == b[i + 1]);
        }
    }
}

proof fn lemma_first_l_from_tail(d: Seq<WSC>, i: int)
    requires
        1 <= i,
    ensures
        first_l_from(seq![WSC::T] + d, i) == first_l_from(seq![WSC::S] + d, i),
    decreases d.len() + 1 - i,
{
    let a = seq![WSC::T] + d;
    let b = seq![WSC::S] + d;
    if i < a.len() {
        assert(a[i] == b[i]);
        lemma_first_l_from_tail(d, i + 1);
    }
}

/// The value of a sequence of decimal digits, most significant first.
pub open spec fn decimal_value(d: Seq<u8>) -> int
    decreases d.len(),
{
    if d.len() == 0 {
        0
    } else {
        10 * decimal_value(d.drop_last()) + d.last()
    }
}

proof fn lemma_decimal_prefix_le(d: Seq<u8>, k: int)
    requires
        0 <= k <= d.len(),
    ensures
        0 <= decimal_value(d.take(k)) <= decimal_value(d),
    decreases d.len(),
{
    if k == d.len() {
        assert(d.take(k) =~= d);
        lemma_decimal_nonneg(d);
    } else {
        lemma_decimal_prefix_le(d.drop_last(), k);
        assert(d.drop_last().take(k) =~= d.take(k));
    }
}

pub proof fn lemma_decimal_nonneg(d: Seq<u8>)
    ensures
        decimal_value(d) >= 0,
    decreases d.len(),
{
    if d.len() > 0 {
        lemma_decimal_nonneg(d.drop_last());
    }
}

/// Folds decimal digit values into a number, most significant first; `None`
/// when the number does not fit in `i32`.
pub fn decimal_from_digits(d: &Vec<u8>) -> (r: Option<i32>)
    ensures
        r == (if decimal_value(d@) <= i32::MAX {
            Some(decimal_value(d@) as i32)
        } else {
            None
        }),
{
    let mut acc: i64 = 0;
    let mut k: usize = 0;
    while k < d.len()
        invariant
            k <= d.len(),
            acc == decimal_value(d@.take(k as int)),
            0 <= acc <= i32::MAX,
        decreases d.len() - k,
    {
        assert(d@.take(k + 1).drop_last() =~= d@.take(k as int));
        acc = acc * 10 + d[k] as i64;
        k += 1;
        if acc > 0x7fff_ffff {
            proof {
                lemma_decimal_prefix_le(d@, k as int);
            }
            return None;
        }
    }
    assert(d@.take(k as int) =~= d@);
    Some(acc as i32)
}

} // verus!
