//! Properties of the parsers that hold for all inputs.

use vstd::prelude::*;

use crate::bytes::{is_digit, lemma_run_end, lemma_run_end_at, radix_digits_value, run_end};
use crate::cleanup::{
    apply_age_flags, cleanup_age_by, duration_of, duration_rest, is_unit_byte,
    lemma_duration_part_takes_bytes, lemma_part_shape_takes_bytes, part_shape, CleanupErrorView,
};
use crate::config_file::{specifier_of, Mode, ModeBehavior, Specifier};
use crate::duration::MAX_NANOS;
use crate::parser::{
    action_of, expands_to_absolute, is_modifier, modifiers_from, is_not_percent, line_type_of, mode_of, path_of,
    specifier_sections, ParseErrorView,
};

verus! {

// ---- Modes ----

pub open spec fn pow8(n: nat) -> nat
    decreases n,
{
    if n == 0 {
        1
    } else {
        8 * pow8((n - 1) as nat)
    }
}

/// `v` written as `n` octal digits, with leading zeros.
pub open spec fn octal_digits(v: nat, n: nat) -> Seq<u8>
    decreases n,
{
    if n == 0 {
        Seq::empty()
    } else {
        octal_digits(v / 8, (n - 1) as nat).push((0x30 + v % 8) as u8)
    }
}

proof fn lemma_octal_digits(v: nat, n: nat)
    requires
        v < pow8(n),
    ensures
        octal_digits(v, n).len() == n,
        forall|j: int| 0 <= j < n ==> 0x30 <= #[trigger] octal_digits(v, n)[j] <= 0x37,
        radix_digits_value(octal_digits(v, n), 8) == Some(v),
    decreases n,
{
    if n > 0 {
        assert(v / 8 < pow8((n - 1) as nat)) by (nonlinear_arith)
            requires
                v < 8 * pow8((n - 1) as nat),
        ;
        lemma_octal_digits(v / 8, (n - 1) as nat);
        let s = octal_digits(v, n);
        assert(s.drop_last() =~= octal_digits(v / 8, (n - 1) as nat));
        assert((v / 8) * 8 + v % 8 == v) by (nonlinear_arith);
    }
}

/// Any number below 8^n, written as n = 3 or 4 octal digits, reads back as
/// a mode of that very value, with the default behavior.
pub proof fn lemma_mode_round_trip(v: nat, n: nat)
    requires
        3 <= n <= 4,
        v < pow8(n),
    ensures
        mode_of(octal_digits(v, n)) == Ok::<Mode, ParseErrorView>(
            Mode { value: v as u32, mode_behavior: ModeBehavior::Default },
        ),
{
    lemma_octal_digits(v, n);
    assert(pow8(1) == 8 && pow8(2) == 64 && pow8(3) == 512 && pow8(4) == 4096) by {
        reveal_with_fuel(pow8, 5);
    }
    let s = octal_digits(v, n);
    assert(0x30 <= s[0] <= 0x37);
}

/// A run of octal digits of any length but three or four is no mode.
pub proof fn lemma_mode_needs_three_or_four_digits(s: Seq<u8>)
    requires
        forall|j: int| 0 <= j < s.len() ==> 0x30 <= #[trigger] s[j] <= 0x37,
        !(3 <= s.len() <= 4),
    ensures
        mode_of(s) == Err::<Mode, ParseErrorView>(ParseErrorView::InvalidMode),
{
    if s.len() > 0 {
        assert(0x30 <= s[0] <= 0x37);
    }
}

// ---- Durations ----

/// The exact sum, in nanoseconds, of the parts of `s` from position `i` on,
/// without regard to the largest duration; `None` where a part does not read.
pub open spec fn parts_total(s: Seq<u8>, i: int) -> Option<nat>
    decreases s.len() - i,
    via parts_total_decreases
{
    if i < 0 || i >= s.len() {
        Some(0)
    } else {
        match part_shape(s.subrange(i, s.len() as int)) {
            Err(_) => None,
            Ok((v, n)) => match parts_total(s, i + n) {
                Some(t) => Some(v + t),
                None => None,
            },
        }
    }
}

#[via_fn]
proof fn parts_total_decreases(s: Seq<u8>, i: int) {
    if 0 <= i < s.len() {
        lemma_part_shape_takes_bytes(s.subrange(i, s.len() as int));
    }
}

/// A duration is read as the running sum of its parts.
proof fn lemma_duration_of_is_rest(s: Seq<u8>)
    requires
        s.len() > 0,
    ensures
        duration_of(s) == duration_rest(s, 0, 0),
{
    assert(s.subrange(0, s.len() as int) =~= s);
}

/// Adding up parts from position `i` onto `acc` gives `acc` plus their exact
/// sum where that fits, and an overflow where it does not.
proof fn lemma_rest_is_exact_sum(s: Seq<u8>, i: int, acc: nat)
    requires
        0 <= i <= s.len(),
        acc <= MAX_NANOS,
        parts_total(s, i) is Some,
    ensures
        acc + parts_total(s, i)->Some_0 <= MAX_NANOS ==> duration_rest(s, i, acc) == Ok::<
            nat,
            CleanupErrorView,
        >(acc + parts_total(s, i)->Some_0),
        acc + parts_total(s, i)->Some_0 > MAX_NANOS ==> duration_rest(
            s,
            i,
            acc,
        ) matches Err(CleanupErrorView::OverflowedDuration(_)),
    decreases s.len() - i,
{
    if i < s.len() {
        let t = s.subrange(i, s.len() as int);
        lemma_part_shape_takes_bytes(t);
        let (v, n) = part_shape(t)->Ok_0;
        if acc + v <= MAX_NANOS {
            lemma_rest_is_exact_sum(s, i + n, acc + v);
        }
    }
}

/// Where adding up parts from position `i` onto `acc` gives `r`, the parts
/// read and their exact sum is `r - acc`.
proof fn lemma_rest_gives_parts(s: Seq<u8>, i: int, acc: nat, r: nat)
    requires
        0 <= i <= s.len(),
        duration_rest(s, i, acc) == Ok::<nat, CleanupErrorView>(r),
    ensures
        r >= acc,
        parts_total(s, i) == Some((r - acc) as nat),
    decreases s.len() - i,
{
    if i < s.len() {
        let t = s.subrange(i, s.len() as int);
        lemma_part_shape_takes_bytes(t);
        let (v, n) = part_shape(t)->Ok_0;
        lemma_rest_gives_parts(s, i + n, acc + v, r);
    }
}

/// The length of a duration is the exact sum of its parts: where that sum
/// fits a duration, it is the result; where it does not, the duration is
/// refused as an overflow, never wrapped round or cut down.
pub proof fn lemma_duration_is_exact_sum(s: Seq<u8>)
    requires
        s.len() > 0,
        parts_total(s, 0) is Some,
    ensures
        parts_total(s, 0)->Some_0 <= MAX_NANOS ==> duration_of(s) == Ok::<nat, CleanupErrorView>(
            parts_total(s, 0)->Some_0,
        ),
        parts_total(s, 0)->Some_0 > MAX_NANOS ==> duration_of(
            s,
        ) matches Err(CleanupErrorView::OverflowedDuration(_)),
{
    lemma_duration_of_is_rest(s);
    lemma_rest_is_exact_sum(s, 0, 0);
}

/// A part reads the same with more parts after it, where its unit is spelled
/// out or other bytes follow it within `t`.
proof fn lemma_part_then_more(t: Seq<u8>, b: Seq<u8>)
    requires
        part_shape(t) is Ok,
        part_shape(t)->Ok_0.1 < t.len() || (t.len() > 0 && is_unit_byte(t.last())),
        b.len() > 0 ==> is_digit(b[0]),
    ensures
        part_shape(t + b) == part_shape(t),
{
    let u = t + b;
    let d = run_end(t, 0, |c: u8| is_digit(c));
    lemma_run_end(t, 0, |c: u8| is_digit(c));
    lemma_run_end(t, d, |c: u8| is_unit_byte(c));
    let e = run_end(t, d, |c: u8| is_unit_byte(c));
    if d == t.len() {
        assert(is_digit(t[t.len() - 1]));
    }
    assert(d < t.len());
    assert(u[d] == t[d]);
    lemma_run_end_at(u, 0, d, |c: u8| is_digit(c));
    if e < t.len() {
        assert(u[e] == t[e]);
    }
    lemma_run_end_at(u, d, e, |c: u8| is_unit_byte(c));
    assert(u.subrange(0, d) =~= t.subrange(0, d));
    assert(u.subrange(d, e) =~= t.subrange(d, e));
}

/// The parts of `a + b` from position `a.len() + j` on are those of `b` from
/// `j` on.
proof fn lemma_parts_shift(a: Seq<u8>, b: Seq<u8>, j: int)
    requires
        0 <= j <= b.len(),
    ensures
        parts_total(a + b, a.len() + j) == parts_total(b, j),
    decreases b.len() - j,
{
    let u = a + b;
    if j < b.len() {
        assert(u.subrange(a.len() + j, u.len() as int) =~= b.subrange(j, b.len() as int));
        let t = b.subrange(j, b.len() as int);
        lemma_part_shape_takes_bytes(t);
        if part_shape(t) is Ok {
            let (v, n) = part_shape(t)->Ok_0;
            lemma_parts_shift(a, b, j + n);
        }
    }
}

/// The parts of `a + b` from a position `i` inside `a` are those of `a` from
/// `i` on, then those of `b`, where `a` ends in a unit spelled out and `b`
/// begins with a digit.
proof fn lemma_parts_prefix(a: Seq<u8>, b: Seq<u8>, i: int)
    requires
        0 <= i <= a.len(),
        a.len() > 0,
        is_unit_byte(a.last()),
        b.len() > 0 ==> is_digit(b[0]),
        parts_total(a, i) is Some,
        parts_total(a + b, a.len() as int) is Some,
    ensures
        parts_total(a + b, i) == Some(
            parts_total(a, i)->Some_0 + parts_total(a + b, a.len() as int)->Some_0,
        ),
    decreases a.len() - i,
{
    let u = a + b;
    if i < a.len() {
        let t = a.subrange(i, a.len() as int);
        lemma_part_shape_takes_bytes(t);
        let (v, n) = part_shape(t)->Ok_0;
        assert(t.last() == a.last());
        lemma_part_then_more(t, b);
        assert(u.subrange(i, u.len() as int) =~= t + b);
        lemma_parts_prefix(a, b, i + n);
    }
}

/// A duration that reads ends in a digit or in a byte of a unit's name.
proof fn lemma_parts_end(s: Seq<u8>, i: int)
    requires
        0 <= i < s.len(),
        parts_total(s, i) is Some,
    ensures
        is_digit(s.last()) || is_unit_byte(s.last()),
    decreases s.len() - i,
{
    let t = s.subrange(i, s.len() as int);
    lemma_part_shape_takes_bytes(t);
    let (v, n) = part_shape(t)->Ok_0;
    if i + n < s.len() {
        lemma_parts_end(s, i + n);
    } else {
        let d = run_end(t, 0, |c: u8| is_digit(c));
        lemma_run_end(t, 0, |c: u8| is_digit(c));
        lemma_run_end(t, d, |c: u8| is_unit_byte(c));
        assert(s.last() == t[n - 1]);
    }
}

/// A duration that reads begins with a digit.
proof fn lemma_parts_start(s: Seq<u8>)
    requires
        s.len() > 0,
        parts_total(s, 0) is Some,
    ensures
        is_digit(s[0]),
{
    let t = s.subrange(0, s.len() as int);
    assert(t =~= s);
    lemma_run_end(s, 0, |c: u8| is_digit(c));
}

/// `a` then `b` reads as the sum of the two, where each reads and `a` does
/// not end in a digit.
proof fn lemma_join(a: Seq<u8>, b: Seq<u8>, x: nat, y: nat)
    requires
        duration_of(a) == Ok::<nat, CleanupErrorView>(x),
        duration_of(b) == Ok::<nat, CleanupErrorView>(y),
        !is_digit(a.last()),
        x + y <= MAX_NANOS,
    ensures
        duration_of(a + b) == Ok::<nat, CleanupErrorView>(x + y),
{
    lemma_duration_part_takes_bytes(a);
    lemma_duration_part_takes_bytes(b);
    lemma_duration_of_is_rest(a);
    lemma_duration_of_is_rest(b);
    lemma_rest_gives_parts(a, 0, 0, x);
    lemma_rest_gives_parts(b, 0, 0, y);
    lemma_parts_end(a, 0);
    lemma_parts_start(b);
    lemma_parts_shift(a, b, 0);
    lemma_parts_prefix(a, b, 0);
    lemma_duration_is_exact_sum(a + b);
}

/// Durations may be joined in either order and in any grouping: where `a`
/// and `b` each read and neither ends in a digit (so that no count runs on
/// into the next part), `a` then `b` and `b` then `a` both read as the sum of
/// the two, where that sum fits a duration.
pub proof fn lemma_durations_join(a: Seq<u8>, b: Seq<u8>)
    requires
        duration_of(a) is Ok,
        duration_of(b) is Ok,
        !is_digit(a.last()),
        !is_digit(b.last()),
        duration_of(a)->Ok_0 + duration_of(b)->Ok_0 <= MAX_NANOS,
    ensures
        duration_of(a + b) == Ok::<nat, CleanupErrorView>(
            duration_of(a)->Ok_0 + duration_of(b)->Ok_0,
        ),
        duration_of(b + a) == duration_of(a + b),
{
    let x = duration_of(a)->Ok_0;
    let y = duration_of(b)->Ok_0;
    lemma_join(a, b, x, y);
    lemma_join(b, a, y, x);
}

// ---- Paths ----

/// A path that is a single specifier and nothing else is accepted exactly
/// when the specifier stands for an absolute path; else it is refused as
/// not absolute.
pub proof fn lemma_bare_specifier_path(c: u8)
    requires
        specifier_of(c) is Some,
    ensures
        path_of(seq![0x25u8, c]) == (if expands_to_absolute(specifier_of(c)->Some_0) {
            Ok::<(Seq<u8>, Seq<(Specifier, Seq<u8>)>), ParseErrorView>(
                (Seq::empty(), seq![(specifier_of(c)->Some_0, Seq::<u8>::empty())]),
            )
        } else {
            Err(ParseErrorView::NonabsolutePath)
        }),
{
    let s = seq![0x25u8, c];
    let specifier = specifier_of(c)->Some_0;
    lemma_run_end_at(s, 0, 0, |b: u8| is_not_percent(b));
    lemma_run_end_at(s, 2, 2, |b: u8| is_not_percent(b));
    assert(specifier_sections(s, 2) == Ok::<Seq<(Specifier, Seq<u8>)>, ParseErrorView>(
        Seq::empty(),
    ));
    assert(s.subrange(2, 2) =~= Seq::<u8>::empty());
    assert(s.subrange(0, 0) =~= Seq::<u8>::empty());
    assert(seq![(specifier, Seq::<u8>::empty())] + Seq::<(Specifier, Seq<u8>)>::empty() =~= seq![
        (specifier, Seq::<u8>::empty()),
    ]);
    let sections = seq![(specifier, Seq::<u8>::empty())];
    assert(!Seq::<u8>::empty().contains(0));
    assert(!(exists|j: int| 0 <= j < sections.len() && #[trigger] sections[j].1.contains(0)));
}

// ---- Repeated letters ----

/// A type modifier given twice right after the action letter is refused as a
/// repeat of that very modifier.
pub proof fn lemma_repeated_type_modifier(letter: u8, m: u8)
    requires
        action_of(letter) is Some,
        is_modifier(m),
    ensures
        line_type_of(seq![letter, m, m]) == Err::<(crate::config_file::LineType, bool), ParseErrorView>(
            ParseErrorView::DuplicateTypeModifier(m),
        ),
{
    let s = seq![letter, m, m];
    let preset = if letter == 0x46 {
        set![0x2bu8]
    } else {
        Set::<u8>::empty()
    };
    reveal_with_fuel(modifiers_from, 3);
    assert(s[1] == m && s[2] == m);
    if !preset.contains(m) {
        assert(preset.insert(m).contains(m));
    }
}

/// A timestamp letter given twice in an age field's list is refused as a
/// repeat of that very letter.
pub proof fn lemma_repeated_age_letter(c: u8)
    requires
        c == 0x61 || c == 0x41 || c == 0x62 || c == 0x42 || c == 0x63 || c == 0x43 || c == 0x6d
            || c == 0x4d,
    ensures
        cleanup_age_by(seq![c, c]) == Err::<crate::config_file::CleanupAge, CleanupErrorView>(
            CleanupErrorView::DuplicateCleanupSpecifier(c),
        ),
{
    reveal_with_fuel(apply_age_flags, 3);
    let s = seq![c, c];
    assert(s[0] == c && s[1] == c);
}

} // verus!
