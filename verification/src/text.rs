//! Byte-level text helpers: substring search, whitespace trimming and
//! decimal formatting.

use vstd::prelude::*;

verus! {

/// ASCII whitespace, the characters stripped by trimming.
pub open spec fn is_space(b: u8) -> bool {
    b == 0x20 || b == 0x09 || b == 0x0a || b == 0x0b || b == 0x0c || b == 0x0d
}

/// `pat` occurs in `text` starting at position `i`.
pub open spec fn matches_at(text: Seq<u8>, pat: Seq<u8>, i: int) -> bool {
    &&& 0 <= i
    &&& i + pat.len() <= text.len()
    &&& text.subrange(i, i + pat.len()) == pat
}

/// `text` contains `pat` as a contiguous subsequence.
pub open spec fn contains_sub(text: Seq<u8>, pat: Seq<u8>) -> bool {
    exists|i: int| matches_at(text, pat, i)
}

fn is_space_byte(b: u8) -> (r: bool)
    ensures
        r == is_space(b),
{
    b == 0x20 || b == 0x09 || b == 0x0a || b == 0x0b || b == 0x0c || b == 0x0d
}

/// Literal, case-sensitive substring search.
pub fn contains_subslice(text: &[u8], pat: &[u8]) -> (r: bool)
    ensures
        r == contains_sub(text@, pat@),
{
    if pat.len() > text.len() {
        assert(forall|i: int| !matches_at(text@, pat@, i));
        return false;
    }
    if pat.len() == 0 {
        proof {
            assert(text@.subrange(0, 0) =~= pat@);
            assert(matches_at(text@, pat@, 0));
        }
        return true;
    }
    let mut i: usize = 0;
    while i <= text.len() - pat.len()
        invariant
            text@.len() <= usize::MAX,
            1 <= pat@.len() <= text@.len(),
            i <= text@.len() - pat@.len() + 1,
            forall|k: int| 0 <= k < i ==> !matches_at(text@, pat@, k),
        decreases text.len() + 1 - pat.len() - i,
    {
        let mut j: usize = 0;
        let mut mismatch: bool = false;
        while j < pat.len()
            invariant
                text@.len() <= usize::MAX,
                i + pat@.len() <= text@.len(),
                j <= pat@.len(),
                !mismatch ==> forall|k: int| 0 <= k < j ==> text@[i + k] == pat@[k],
                mismatch ==> !matches_at(text@, pat@, i as int),
            decreases pat.len() - j,
        {
            if text[i + j] != pat[j] {
                proof {
                    assert(text@.subrange(i as int, i + pat@.len()) != pat@) by {
                        assert(text@.subrange(i as int, i + pat@.len())[j as int] != pat@[j as int]);
                    }
                }
                mismatch = true;
                j = pat.len();
            } else {
                j += 1;
            }
        }
        if !mismatch {
            proof {
                assert(text@.subrange(i as int, i + pat@.len()) =~= pat@);
                assert(matches_at(text@, pat@, i as int));
            }
            return true;
        }
        i += 1;
    }
    proof {
        assert forall|k: int| !matches_at(text@, pat@, k) by {
            if 0 <= k <= text@.len() - pat@.len() {
                assert(!matches_at(text@, pat@, k));
            }
        }
    }
    false
}

/// `s` with leading whitespace removed.
pub open spec fn trim_front(s: Seq<u8>) -> Seq<u8>
    decreases s.len(),
{
    if s.len() == 0 {
        s
    } else if is_space(s[0]) {
        trim_front(s.drop_first())
    } else {
        s
    }
}

/// `s` with trailing whitespace removed.
pub open spec fn trim_back(s: Seq<u8>) -> Seq<u8>
    decreases s.len(),
{
    if s.len() == 0 {
        s
    } else if is_space(s.last()) {
        trim_back(s.drop_last())
    } else {
        s
    }
}

/// `s` with both leading and trailing whitespace removed.
pub open spec fn trimmed(s: Seq<u8>) -> Seq<u8> {
    trim_back(trim_front(s))
}

/// Applies trimming only when `trim` is set.
pub open spec fn maybe_trimmed(s: Seq<u8>, trim: bool) -> Seq<u8> {
    if trim {
        trimmed(s)
    } else {
        s
    }
}

proof fn lemma_trim_front_subrange(s: Seq<u8>, lo: int)
    requires
        0 <= lo <= s.len(),
        forall|k: int| 0 <= k < lo ==> is_space(s[k]),
    ensures
        trim_front(s) == trim_front(s.subrange(lo, s.len() as int)),
    decreases lo,
{
    if lo == 0 {
        assert(s.subrange(0, s.len() as int) =~= s);
    } else {
        assert(is_space(s[0]));
        assert(s.drop_first() =~= s.subrange(1, s.len() as int));
        lemma_trim_front_subrange(s.subrange(1, s.len() as int), lo - 1);
        assert(s.subrange(1, s.len() as int).subrange(lo - 1, s.len() - 1) =~= s.subrange(
            lo,
            s.len() as int,
        ));
    }
}

proof fn lemma_trim_back_subrange(s: Seq<u8>, hi: int)
    requires
        0 <= hi <= s.len(),
        forall|k: int| hi <= k < s.len() ==> is_space(s[k]),
    ensures
        trim_back(s) == trim_back(s.subrange(0, hi)),
    decreases s.len() - hi,
{
    if hi == s.len() {
        assert(s.subrange(0, hi) =~= s);
    } else {
        assert(is_space(s.last()));
        assert(s.drop_last() =~= s.subrange(0, s.len() - 1));
        lemma_trim_back_subrange(s.subrange(0, s.len() - 1), hi);
        assert(s.subrange(0, s.len() - 1).subrange(0, hi) =~= s.subrange(0, hi));
    }
}

/// Copy of `s` with leading and trailing ASCII whitespace removed.
pub fn trim_bytes(s: &[u8]) -> (r: Vec<u8>)
    ensures
        r@ == trimmed(s@),
{
    let mut lo: usize = 0;
    while lo < s.len() && is_space_byte(s[lo])
        invariant
            lo <= s.len(),
            forall|k: int| 0 <= k < lo ==> is_space(s@[k]),
        decreases s.len() - lo,
    {
        lo += 1;
    }
    proof {
        lemma_trim_front_subrange(s@, lo as int);
        if lo < s.len() {
            assert(trim_front(s@.subrange(lo as int, s@.len() as int)) == s@.subrange(
                lo as int,
                s@.len() as int,
            ));
        }
    }
    let mut hi: usize = s.len();
    while hi > lo && is_space_byte(s[hi - 1])
        invariant
            lo <= hi <= s.len(),
            forall|k: int| hi <= k < s.len() ==> is_space(s@[k]),
        decreases hi,
    {
        hi -= 1;
    }
    proof {
        let front = s@.subrange(lo as int, s@.len() as int);
        assert(trim_front(s@) == front);
        lemma_trim_back_subrange(front, hi - lo);
        assert(front.subrange(0, hi - lo) =~= s@.subrange(lo as int, hi as int));
        if hi > lo {
            assert(!is_space(s@.subrange(lo as int, hi as int).last()));
            assert(trim_back(s@.subrange(lo as int, hi as int)) == s@.subrange(
                lo as int,
                hi as int,
            ));
        } else {
            assert(s@.subrange(lo as int, hi as int).len() == 0);
        }
        assert(trimmed(s@) == s@.subrange(lo as int, hi as int));
    }
    let mut r: Vec<u8> = Vec::new();
    let mut i: usize = lo;
    while i < hi
        invariant
            lo <= i <= hi <= s.len(),
            r@ == s@.subrange(lo as int, i as int),
        decreases hi - i,
    {
        r.push(s[i]);
        proof {
            assert(s@.subrange(lo as int, i as int).push(s@[i as int]) =~= s@.subrange(
                lo as int,
                i + 1,
            ));
        }
        i += 1;
    }
    r
}

/// Decimal digits of `n`, most significant first; empty for `n <= 0`.
pub open spec fn dec_digits(n: int) -> Seq<u8>
    decreases n,
{
    if n <= 0 {
        Seq::empty()
    } else {
        dec_digits(n / 10).push((0x30 + n % 10) as u8)
    }
}

/// The decimal rendering of a non-negative number; `0` is rendered as `"0"`.
pub open spec fn dec_bytes(n: int) -> Seq<u8> {
    if n == 0 {
        seq![0x30u8]
    } else {
        dec_digits(n)
    }
}

/// Appends the decimal rendering of `n` to `out`.
pub fn push_decimal(out: &mut Vec<u8>, n: u64)
    ensures
        final(out)@ == old(out)@ + dec_bytes(n as int),
{
    if n == 0 {
        out.push(0x30);
        proof {
            assert(old(out)@.push(0x30u8) =~= old(out)@ + dec_bytes(0));
        }
        return ;
    }
    let mut digits: Vec<u8> = Vec::new();
    let mut m: u64 = n;
    while m > 0
        invariant
            dec_digits(m as int) + digits@ == dec_digits(n as int),
        decreases m,
    {
        let ghost pre = digits@;
        let d: u8 = (0x30 + (m % 10)) as u8;
        digits.insert(0, d);
        proof {
            assert(dec_digits(m as int) == dec_digits(m as int / 10).push(d));
            assert(digits@ =~= seq![d] + pre);
            assert(dec_digits(m as int / 10) + digits@ =~= (dec_digits(m as int / 10).push(d))
                + pre);
        }
        m = m / 10;
    }
    proof {
        assert(dec_digits(0) + digits@ =~= digits@);
        assert(digits@ == dec_bytes(n as int));
    }
    let mut i: usize = 0;
    while i < digits.len()
        invariant
            i <= digits@.len(),
            out@ == old(out)@ + digits@.subrange(0, i as int),
        decreases digits.len() - i,
    {
        out.push(digits[i]);
        proof {
            assert((old(out)@ + digits@.subrange(0, i as int)).push(digits@[i as int]) =~= old(
                out,
            )@ + digits@.subrange(0, i + 1));
        }
        i += 1;
    }
    proof {
        assert(digits@.subrange(0, digits@.len() as int) =~= digits@);
    }
}

} // verus!
