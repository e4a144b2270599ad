//! Small readers over byte strings: runs of bytes, prefixes and unsigned
//! numbers.

use vstd::prelude::*;
use vstd::slice::slice_subrange;

verus! {

/// The end of the run of bytes from position `i` of `s` on which `p` holds.
pub open spec fn run_end(s: Seq<u8>, i: int, p: spec_fn(u8) -> bool) -> int
    decreases s.len() - i,
{
    if i < 0 || i >= s.len() || !p(s[i]) {
        i
    } else {
        run_end(s, i + 1, p)
    }
}

pub proof fn lemma_run_end(s: Seq<u8>, i: int, p: spec_fn(u8) -> bool)
    requires
        0 <= i <= s.len(),
    ensures
        i <= run_end(s, i, p) <= s.len(),
        forall|j: int| i <= j < run_end(s, i, p) ==> p(s[j]),
        run_end(s, i, p) < s.len() ==> !p(s[run_end(s, i, p)]),
    decreases s.len() - i,
{
    if i < s.len() && p(s[i]) {
        lemma_run_end(s, i + 1, p);
    }
}

/// The run from `i` on which `p` holds ends at `k`, where `p` holds on each
/// byte from `i` to `k` and fails at `k`.
pub proof fn lemma_run_end_at(s: Seq<u8>, i: int, k: int, p: spec_fn(u8) -> bool)
    requires
        0 <= i <= k <= s.len(),
        forall|j: int| i <= j < k ==> p(s[j]),
        k < s.len() ==> !p(s[k]),
    ensures
        run_end(s, i, p) == k,
    decreases k - i,
{
    if i < k {
        lemma_run_end_at(s, i + 1, k, p);
    }
}

pub open spec fn is_digit(b: u8) -> bool {
    0x30 <= b <= 0x39
}

/// The number that a run of decimal digits spells.
pub open spec fn decimal_value(s: Seq<u8>) -> nat
    decreases s.len(),
{
    if s.len() == 0 {
        0
    } else {
        decimal_value(s.drop_last()) * 10 + (s.last() - 0x30) as nat
    }
}

/// Takes the longest run at the start of `slice` on which `predicate` holds.
pub fn take_from_slice_while<'a>(slice: &mut &'a [u8], predicate: impl Fn(u8) -> bool) -> (r: &'a [u8])
    requires
        forall|b: u8| predicate.requires((b,)),
    ensures
        r@.len() <= old(slice)@.len(),
        r@ == old(slice)@.subrange(0, r@.len() as int),
        final(slice)@ == old(slice)@.subrange(r@.len() as int, old(slice)@.len() as int),
        forall|j: int| 0 <= j < r@.len() ==> predicate.ensures((old(slice)@[j],), true),
        r@.len() < old(slice)@.len() ==> predicate.ensures((old(slice)@[r@.len() as int],), false),
{
    let s: &'a [u8] = *slice;
    let mut split_idx: usize = 0;
    while split_idx < s.len()
        invariant
            split_idx <= s@.len(),
            forall|b: u8| predicate.requires((b,)),
            forall|j: int| 0 <= j < split_idx ==> predicate.ensures((s@[j],), true),
        ensures
            split_idx <= s@.len(),
            forall|j: int| 0 <= j < split_idx ==> predicate.ensures((s@[j],), true),
            split_idx < s@.len() ==> predicate.ensures((s@[split_idx as int],), false),
        decreases s@.len() - split_idx,
    {
        if !predicate(s[split_idx]) {
            break;
        }
        split_idx = split_idx + 1;
    }
    let taken = slice_subrange(s, 0, split_idx);
    *slice = slice_subrange(s, split_idx, s.len());
    taken
}

/// Whether `a` and `b` hold the same bytes.
pub fn bytes_equal(a: &[u8], b: &[u8]) -> (r: bool)
    ensures
        r == (a@ == b@),
{
    if a.len() != b.len() {
        return false;
    }
    let mut i: usize = 0;
    while i < a.len()
        invariant
            a@.len() == b@.len(),
            i <= a@.len(),
            forall|j: int| 0 <= j < i ==> a@[j] == b@[j],
        decreases a@.len() - i,
    {
        if a[i] != b[i] {
            return false;
        }
        i = i + 1;
    }
    assert(a@ =~= b@);
    true
}

} // verus!

verus! {

/// Takes `prefix` off the front of `slice` when `slice` starts with it.
pub fn take_string_from_slice<'a>(slice: &mut &'a [u8], prefix: &[u8]) -> (r: Option<&'a [u8]>)
    ensures
        match r {
            Some(taken) => {
                &&& prefix@.len() <= old(slice)@.len()
                &&& old(slice)@.subrange(0, prefix@.len() as int) == prefix@
                &&& taken@ == prefix@
                &&& final(slice)@ == old(slice)@.subrange(prefix@.len() as int, old(slice)@.len() as int)
            },
            None => {
                &&& !(prefix@.len() <= old(slice)@.len() && old(slice)@.subrange(0, prefix@.len() as int) == prefix@)
                &&& final(slice)@ == old(slice)@
            },
        },
{
    let s: &'a [u8] = *slice;
    if prefix.len() > s.len() {
        return None;
    }
    let head = slice_subrange(s, 0, prefix.len());
    if !bytes_equal(head, prefix) {
        return None;
    }
    *slice = slice_subrange(s, prefix.len(), s.len());
    Some(head)
}

} // verus!

verus! {

/// The number that the digits `s` spell in base `radix`, or `None` where a
/// byte is no digit of that base.
pub open spec fn radix_digits_value(s: Seq<u8>, radix: nat) -> Option<nat>
    decreases s.len(),
{
    if s.len() == 0 {
        Some(0)
    } else {
        let b = s.last();
        if 0x30 <= b && ((b - 0x30) as nat) < radix {
            match radix_digits_value(s.drop_last(), radix) {
                Some(v) => Some(v * radix + (b - 0x30) as nat),
                None => None,
            }
        } else {
            None
        }
    }
}

/// The number that `s` spells as an unsigned integer in base `radix`: an
/// optional `+`, then one or more digits.
pub open spec fn unsigned_value(s: Seq<u8>, radix: nat) -> Option<nat> {
    let digits = if s.len() > 0 && s[0] == 0x2b {
        s.subrange(1, s.len() as int)
    } else {
        s
    };
    if digits.len() == 0 {
        None
    } else {
        radix_digits_value(digits, radix)
    }
}

/// Reads `s` as an unsigned integer in base `radix` (8 or 10) no larger than
/// `max`.
pub fn parse_unsigned(s: &[u8], radix: u64, max: u64) -> (r: Option<u64>)
    requires
        radix == 8 || radix == 10,
        max <= u32::MAX,
    ensures
        match unsigned_value(s@, radix as nat) {
            Some(v) => if v <= max {
                r == Some(v as u64)
            } else {
                r is None
            },
            None => r is None,
        },
{
    let mut start: usize = 0;
    if s.len() > 0 && s[0] == 0x2b {
        start = 1;
    }
    let ghost digits = s@.subrange(start as int, s@.len() as int);
    if start >= s.len() {
        return None;
    }
    if start == 0 {
        assert(digits =~= s@);
    }
    assert(unsigned_value(s@, radix as nat) == radix_digits_value(digits, radix as nat));
    assert(s@.subrange(start as int, start as int) =~= Seq::<u8>::empty());
    let mut acc: u64 = 0;
    let mut too_big = false;
    let mut i: usize = start;
    while i < s.len()
        invariant
            start <= i <= s@.len(),
            digits == s@.subrange(start as int, s@.len() as int),
            unsigned_value(s@, radix as nat) == radix_digits_value(digits, radix as nat),
            radix == 8 || radix == 10,
            max <= u32::MAX,
            radix_digits_value(s@.subrange(start as int, i as int), radix as nat) matches Some(v)
                && (if too_big {
                v > max
            } else {
                acc == v && acc <= max
            }),
        decreases s@.len() - i,
    {
        let b = s[i];
        if b < 0x30 || (b - 0x30) as u64 >= radix {
            proof {
                let next = s@.subrange(start as int, i + 1);
                assert(next.drop_last() =~= s@.subrange(start as int, i as int));
                lemma_digits_value_none(s@, start as int, i as int + 1, radix as nat);
            }
            return None;
        }
        let d = (b - 0x30) as u64;
        proof {
            let next = s@.subrange(start as int, i + 1);
            assert(next.drop_last() =~= s@.subrange(start as int, i as int));
        }
        if !too_big {
            let next = acc * radix + d;
            if next > max {
                too_big = true;
            } else {
                acc = next;
            }
        } else {
            proof {
                let v = radix_digits_value(s@.subrange(start as int, i as int), radix as nat)->Some_0;
                assert(v * radix + d >= v) by (nonlinear_arith)
                    requires
                        radix >= 1,
                ;
            }
        }
        i = i + 1;
    }
    assert(s@.subrange(start as int, s@.len() as int) =~= digits);
    if too_big {
        None
    } else {
        Some(acc)
    }
}

/// A byte that is no digit makes every longer run of digits no number.
pub proof fn lemma_digits_value_none(s: Seq<u8>, start: int, k: int, radix: nat)
    requires
        0 <= start < k <= s.len(),
        radix_digits_value(s.subrange(start, k), radix) is None,
    ensures
        radix_digits_value(s.subrange(start, s.len() as int), radix) is None,
    decreases s.len() - k,
{
    if k < s.len() {
        let next = s.subrange(start, k + 1);
        assert(next.drop_last() =~= s.subrange(start, k));
        lemma_digits_value_none(s, start, k + 1, radix);
    }
}

/// The largest number that `n` octal digits spell, plus one.
pub open spec fn octal_bound(n: nat) -> nat
    decreases n,
{
    if n == 0 {
        1
    } else {
        8 * octal_bound((n - 1) as nat)
    }
}

/// `n` octal digits spell a number below 8 to the `n`.
pub proof fn lemma_radix_digits_value_bound(s: Seq<u8>, radix: nat)
    requires
        radix == 8,
    ensures
        radix_digits_value(s, radix) matches Some(v) ==> v < octal_bound(s.len()),
    decreases s.len(),
{
    if s.len() > 0 {
        lemma_radix_digits_value_bound(s.drop_last(), radix);
        if let Some(w) = radix_digits_value(s.drop_last(), radix) {
            let b = octal_bound(s.drop_last().len());
            let d = (s.last() - 0x30) as nat;
            if d < 8 {
                assert(w * 8 + d < 8 * b) by (nonlinear_arith)
                    requires
                        w < b,
                        d < 8,
                ;
            }
        }
    }
}

} // verus!
