//! The age field: durations made of `<count><unit>` parts, and the list of
//! timestamps that count as last use.

use vstd::prelude::*;
use vstd::slice::{slice_subrange, slice_to_vec};

use crate::bytes::{
    bytes_equal, decimal_value, is_digit, lemma_run_end, lemma_run_end_at, run_end, take_from_slice_while,
    take_string_from_slice,
};
use crate::config_file::{empty_cleanup_age, CleanupAge};
use crate::duration::{Duration, MAX_NANOS};

verus! {

#[verifier::external_type_specification]
#[verifier::external_body]
pub struct ExParseIntError(std::num::ParseIntError);

pub const NANOSECOND: u128 = 1;
pub const MICROSECOND: u128 = 1_000;
pub const MILLISECOND: u128 = 1_000_000;
pub const SECOND: u128 = 1_000_000_000;
pub const MINUTE: u128 = 60_000_000_000;
pub const HOUR: u128 = 3_600_000_000_000;
pub const DAY: u128 = 86_400_000_000_000;
pub const WEEK: u128 = 604_800_000_000_000;
/// 30 days, 10 hours and 30 minutes, as systemd counts a month.
pub const MONTH: u128 = 2_629_800_000_000_000;
/// 365 days and 6 hours, as systemd counts a year.
pub const YEAR: u128 = 31_557_600_000_000_000;

#[derive(Debug, PartialEq, Eq)]
pub enum CleanupParseError {
    InvalidDurationInt(std::num::ParseIntError),
    InvalidDurationKeyword(Vec<u8>),
    DuplicateCleanupSpecifier(u8),
    InvalidCleanupSpecifier(u8),
    Malformed(Vec<u8>),
    OverflowedDuration(Vec<u8>),
    EmptyCleanupSpecifierList,
}

/// What a `CleanupParseError` says, with its bytes as sequences.
pub enum CleanupErrorView {
    InvalidDurationInt,
    InvalidDurationKeyword(Seq<u8>),
    DuplicateCleanupSpecifier(u8),
    InvalidCleanupSpecifier(u8),
    Malformed(Seq<u8>),
    OverflowedDuration(Seq<u8>),
    EmptyCleanupSpecifierList,
}

impl View for CleanupParseError {
    type V = CleanupErrorView;

    open spec fn view(&self) -> CleanupErrorView {
        match self {
            CleanupParseError::InvalidDurationInt(_) => CleanupErrorView::InvalidDurationInt,
            CleanupParseError::InvalidDurationKeyword(k) => CleanupErrorView::InvalidDurationKeyword(k@),
            CleanupParseError::DuplicateCleanupSpecifier(c) => CleanupErrorView::DuplicateCleanupSpecifier(*c),
            CleanupParseError::InvalidCleanupSpecifier(c) => CleanupErrorView::InvalidCleanupSpecifier(*c),
            CleanupParseError::Malformed(s) => CleanupErrorView::Malformed(s@),
            CleanupParseError::OverflowedDuration(s) => CleanupErrorView::OverflowedDuration(s@),
            CleanupParseError::EmptyCleanupSpecifierList => CleanupErrorView::EmptyCleanupSpecifierList,
        }
    }
}

/// A byte of a unit's name: a letter, or any byte outside ASCII.
pub open spec fn is_unit_byte(b: u8) -> bool {
    (0x41 <= b <= 0x5a) || (0x61 <= b <= 0x7a) || b >= 0x80
}

/// How many nanoseconds the unit spelled `key` stands for.
pub open spec fn unit_nanos(key: Seq<u8>) -> Option<nat> {
    if key == seq![0x6eu8, 0x73u8, 0x65u8, 0x63u8] {
        // `nsec`
        Some(NANOSECOND as nat)
    } else if key == seq![0x6eu8, 0x73u8] {
        // `ns`
        Some(NANOSECOND as nat)
    } else if key == seq![0x75u8, 0x73u8, 0x65u8, 0x63u8] {
        // `usec`
        Some(MICROSECOND as nat)
    } else if key == seq![0x75u8, 0x73u8] {
        // `us`
        Some(MICROSECOND as nat)
    } else if key == seq![0xcdu8, 0xbcu8, 0x73u8] {
        // the bytes 0xcd 0xbc then `s`
        Some(MICROSECOND as nat)
    } else if key == seq![0xc2u8, 0xb5u8, 0x73u8] {
        // MICRO SIGN (U+00B5) then `s`
        Some(MICROSECOND as nat)
    } else if key == seq![0x6du8, 0x73u8, 0x65u8, 0x63u8] {
        // `msec`
        Some(MILLISECOND as nat)
    } else if key == seq![0x6du8, 0x73u8] {
        // `ms`
        Some(MILLISECOND as nat)
    } else if key == seq![0x73u8, 0x65u8, 0x63u8, 0x6fu8, 0x6eu8, 0x64u8, 0x73u8] {
        // `seconds`
        Some(SECOND as nat)
    } else if key == seq![0x73u8, 0x65u8, 0x63u8, 0x6fu8, 0x6eu8, 0x64u8] {
        // `second`
        Some(SECOND as nat)
    } else if key == seq![0x73u8, 0x65u8, 0x63u8] {
        // `sec`
        Some(SECOND as nat)
    } else if key == seq![0x73u8] {
        // `s`
        Some(SECOND as nat)
    } else if key.len() == 0 {
        // no unit
        Some(SECOND as nat)
    } else if key == seq![0x6du8, 0x69u8, 0x6eu8, 0x75u8, 0x74u8, 0x65u8, 0x73u8] {
        // `minutes`
        Some(MINUTE as nat)
    } else if key == seq![0x6du8, 0x69u8, 0x6eu8, 0x75u8, 0x74u8, 0x65u8] {
        // `minute`
        Some(MINUTE as nat)
    } else if key == seq![0x6du8, 0x69u8, 0x6eu8] {
        // `min`
        Some(MINUTE as nat)
    } else if key == seq![0x6du8] {
        // `m`
        Some(MINUTE as nat)
    } else if key == seq![0x68u8, 0x6fu8, 0x75u8, 0x72u8, 0x73u8] {
        // `hours`
        Some(HOUR as nat)
    } else if key == seq![0x68u8, 0x6fu8, 0x75u8, 0x72u8] {
        // `hour`
        Some(HOUR as nat)
    } else if key == seq![0x68u8, 0x72u8] {
        // `hr`
        Some(HOUR as nat)
    } else if key == seq![0x68u8] {
        // `h`
        Some(HOUR as nat)
    } else if key == seq![0x6du8, 0x6fu8, 0x6eu8, 0x74u8, 0x68u8, 0x73u8] {
        // `months`
        Some(MONTH as nat)
    } else if key == seq![0x6du8, 0x6fu8, 0x6eu8, 0x74u8, 0x68u8] {
        // `month`
        Some(MONTH as nat)
    } else if key == seq![0x4du8] {
        // `M`
        Some(MONTH as nat)
    } else if key == seq![0x64u8, 0x61u8, 0x79u8, 0x73u8] {
        // `days`
        Some(DAY as nat)
    } else if key == seq![0x64u8, 0x61u8, 0x79u8] {
        // `day`
        Some(DAY as nat)
    } else if key == seq![0x64u8] {
        // `d`
        Some(DAY as nat)
    } else if key == seq![0x77u8, 0x65u8, 0x65u8, 0x6bu8, 0x73u8] {
        // `weeks`
        Some(WEEK as nat)
    } else if key == seq![0x77u8, 0x65u8, 0x65u8, 0x6bu8] {
        // `week`
        Some(WEEK as nat)
    } else if key == seq![0x77u8] {
        // `w`
        Some(WEEK as nat)
    } else if key == seq![0x79u8, 0x65u8, 0x61u8, 0x72u8, 0x73u8] {
        // `years`
        Some(YEAR as nat)
    } else if key == seq![0x79u8, 0x65u8, 0x61u8, 0x72u8] {
        // `year`
        Some(YEAR as nat)
    } else if key == seq![0x79u8] {
        // `y`
        Some(YEAR as nat)
    } else {
        None
    }
}

/// Looks up the unit spelled `key`, in nanoseconds.
fn unit_of(key: &[u8]) -> (r: Option<u128>)
    ensures
        match unit_nanos(key@) {
            Some(n) => r == Some(n as u128),
            None => r is None,
        },
{
    // `nsec`
    if bytes_equal(key, &[0x6e, 0x73, 0x65, 0x63]) {
        return Some(NANOSECOND);
    }
    // `ns`
    if bytes_equal(key, &[0x6e, 0x73]) {
        return Some(NANOSECOND);
    }
    // `usec`
    if bytes_equal(key, &[0x75, 0x73, 0x65, 0x63]) {
        return Some(MICROSECOND);
    }
    // `us`
    if bytes_equal(key, &[0x75, 0x73]) {
        return Some(MICROSECOND);
    }
    // the bytes 0xcd 0xbc then `s`
    if bytes_equal(key, &[0xcd, 0xbc, 0x73]) {
        return Some(MICROSECOND);
    }
    // MICRO SIGN (U+00B5) then `s`
    if bytes_equal(key, &[0xc2, 0xb5, 0x73]) {
        return Some(MICROSECOND);
    }
    // `msec`
    if bytes_equal(key, &[0x6d, 0x73, 0x65, 0x63]) {
        return Some(MILLISECOND);
    }
    // `ms`
    if bytes_equal(key, &[0x6d, 0x73]) {
        return Some(MILLISECOND);
    }
    // `seconds`
    if bytes_equal(key, &[0x73, 0x65, 0x63, 0x6f, 0x6e, 0x64, 0x73]) {
        return Some(SECOND);
    }
    // `second`
    if bytes_equal(key, &[0x73, 0x65, 0x63, 0x6f, 0x6e, 0x64]) {
        return Some(SECOND);
    }
    // `sec`
    if bytes_equal(key, &[0x73, 0x65, 0x63]) {
        return Some(SECOND);
    }
    // `s`
    if key.len() == 1 && key[0] == 0x73 {
        assert(key@ =~= seq![0x73u8]);
        return Some(SECOND);
    }
    // no unit
    if key.len() == 0 {
        return Some(SECOND);
    }
    // `minutes`
    if bytes_equal(key, &[0x6d, 0x69, 0x6e, 0x75, 0x74, 0x65, 0x73]) {
        return Some(MINUTE);
    }
    // `minute`
    if bytes_equal(key, &[0x6d, 0x69, 0x6e, 0x75, 0x74, 0x65]) {
        return Some(MINUTE);
    }
    // `min`
    if bytes_equal(key, &[0x6d, 0x69, 0x6e]) {
        return Some(MINUTE);
    }
    // `m`
    if key.len() == 1 && key[0] == 0x6d {
        assert(key@ =~= seq![0x6du8]);
        return Some(MINUTE);
    }
    // `hours`
    if bytes_equal(key, &[0x68, 0x6f, 0x75, 0x72, 0x73]) {
        return Some(HOUR);
    }
    // `hour`
    if bytes_equal(key, &[0x68, 0x6f, 0x75, 0x72]) {
        return Some(HOUR);
    }
    // `hr`
    if bytes_equal(key, &[0x68, 0x72]) {
        return Some(HOUR);
    }
    // `h`
    if key.len() == 1 && key[0] == 0x68 {
        assert(key@ =~= seq![0x68u8]);
        return Some(HOUR);
    }
    // `months`
    if bytes_equal(key, &[0x6d, 0x6f, 0x6e, 0x74, 0x68, 0x73]) {
        return Some(MONTH);
    }
    // `month`
    if bytes_equal(key, &[0x6d, 0x6f, 0x6e, 0x74, 0x68]) {
        return Some(MONTH);
    }
    // `M`
    if key.len() == 1 && key[0] == 0x4d {
        assert(key@ =~= seq![0x4du8]);
        return Some(MONTH);
    }
    // `days`
    if bytes_equal(key, &[0x64, 0x61, 0x79, 0x73]) {
        return Some(DAY);
    }
    // `day`
    if bytes_equal(key, &[0x64, 0x61, 0x79]) {
        return Some(DAY);
    }
    // `d`
    if key.len() == 1 && key[0] == 0x64 {
        assert(key@ =~= seq![0x64u8]);
        return Some(DAY);
    }
    // `weeks`
    if bytes_equal(key, &[0x77, 0x65, 0x65, 0x6b, 0x73]) {
        return Some(WEEK);
    }
    // `week`
    if bytes_equal(key, &[0x77, 0x65, 0x65, 0x6b]) {
        return Some(WEEK);
    }
    // `w`
    if key.len() == 1 && key[0] == 0x77 {
        assert(key@ =~= seq![0x77u8]);
        return Some(WEEK);
    }
    // `years`
    if bytes_equal(key, &[0x79, 0x65, 0x61, 0x72, 0x73]) {
        return Some(YEAR);
    }
    // `year`
    if bytes_equal(key, &[0x79, 0x65, 0x61, 0x72]) {
        return Some(YEAR);
    }
    // `y`
    if key.len() == 1 && key[0] == 0x79 {
        assert(key@ =~= seq![0x79u8]);
        return Some(YEAR);
    }
    None
}

/// Relies on `u64::from_str` (std) to read a run of decimal digits: it fails
/// on an empty run and on a number above `u64::MAX`. The digits are ASCII, so
/// `std::str::from_utf8` hands them over as a `&str` without failing.
#[verifier::external_body]
fn u64_from_digits(digits: &[u8]) -> (r: Result<u64, std::num::ParseIntError>)
    requires
        forall|j: int| 0 <= j < digits@.len() ==> is_digit(digits@[j]),
    ensures
        match r {
            Ok(v) => digits@.len() > 0 && v == decimal_value(digits@),
            Err(_) => digits@.len() == 0 || decimal_value(digits@) > u64::MAX,
        },
{
    <u64 as std::str::FromStr>::from_str(std::str::from_utf8(digits).unwrap())
}

} // verus!

verus! {

/// Reads the part `<count><unit>` at the start of `s` without regard to the
/// largest duration: its exact length in nanoseconds and how many bytes of
/// `s` it takes.
pub open spec fn part_shape(s: Seq<u8>) -> Result<(nat, int), CleanupErrorView> {
    let d = run_end(s, 0, |b: u8| is_digit(b));
    let count = decimal_value(s.subrange(0, d));
    if d == 0 || count > u64::MAX {
        Err(CleanupErrorView::InvalidDurationInt)
    } else {
        let e = run_end(s, d, |b: u8| is_unit_byte(b));
        let key = s.subrange(d, e);
        match unit_nanos(key) {
            None => Err(CleanupErrorView::InvalidDurationKeyword(key)),
            Some(unit) => Ok((count * unit, e)),
        }
    }
}

/// Reads the part `<count><unit>` at the start of `s`: its length in
/// nanoseconds and how many bytes of `s` it takes.
pub open spec fn duration_part(s: Seq<u8>) -> Result<(nat, int), CleanupErrorView> {
    match part_shape(s) {
        Err(e) => Err(e),
        Ok((v, n)) => if v > MAX_NANOS {
            Err(CleanupErrorView::OverflowedDuration(s))
        } else {
            Ok((v, n))
        },
    }
}

/// A part takes at least one byte, and no more than `s` holds.
pub proof fn lemma_part_shape_takes_bytes(s: Seq<u8>)
    ensures
        part_shape(s) matches Ok((v, n)) ==> 1 <= n <= s.len(),
{
    let d = run_end(s, 0, |b: u8| is_digit(b));
    lemma_run_end(s, 0, |b: u8| is_digit(b));
    if 0 < d {
        lemma_run_end(s, d, |b: u8| is_unit_byte(b));
    }
}

pub proof fn lemma_duration_part_takes_bytes(s: Seq<u8>)
    ensures
        duration_part(s) matches Ok((v, n)) ==> 1 <= n <= s.len(),
{
    lemma_part_shape_takes_bytes(s);
}

/// Adds up the parts of `s` from position `i` on to `acc`, nanoseconds so far.
pub open spec fn duration_rest(s: Seq<u8>, i: int, acc: nat) -> Result<nat, CleanupErrorView>
    decreases s.len() - i,
    via duration_rest_decreases
{
    if i < 0 || i >= s.len() {
        Ok(acc)
    } else {
        match duration_part(s.subrange(i, s.len() as int)) {
            Err(e) => Err(e),
            Ok((v, n)) => if acc + v > MAX_NANOS {
                Err(CleanupErrorView::OverflowedDuration(s))
            } else {
                duration_rest(s, i + n, acc + v)
            },
        }
    }
}

#[via_fn]
proof fn duration_rest_decreases(s: Seq<u8>, i: int, acc: nat) {
    if 0 <= i < s.len() {
        lemma_duration_part_takes_bytes(s.subrange(i, s.len() as int));
    }
}

/// The duration that `s` spells, one part after another, in nanoseconds.
pub open spec fn duration_of(s: Seq<u8>) -> Result<nat, CleanupErrorView> {
    match duration_part(s) {
        Err(e) => Err(e),
        Ok((v, n)) => duration_rest(s, n, v),
    }
}

fn is_ascii_digit(c: u8) -> (r: bool)
    ensures
        r == is_digit(c),
{
    0x30 <= c && c <= 0x39
}

fn unit_byte(c: u8) -> (r: bool)
    ensures
        r == is_unit_byte(c),
{
    (0x41 <= c && c <= 0x5a) || (0x61 <= c && c <= 0x7a) || c >= 0x80
}

/// Takes one part `<count><unit>` off the front of `input`.
pub fn parse_duration_part(input: &mut &[u8]) -> (r: Result<Duration, CleanupParseError>)
    ensures
        match duration_part(old(input)@) {
            Ok((v, n)) => r matches Ok(d) && d.wf() && d.spec_nanos() == v && final(input)@
                == old(input)@.subrange(n, old(input)@.len() as int),
            Err(e) => r matches Err(x) && x@ == e,
        },
{
    let part_input: &[u8] = *input;
    let ghost s = part_input@;
    let count_digits = take_from_slice_while(input, is_ascii_digit);
    let ghost d = count_digits@.len() as int;
    proof {
        lemma_run_end_at(s, 0, d, |b: u8| is_digit(b));
        assert(count_digits@ =~= s.subrange(0, d));
    }
    let count = match u64_from_digits(count_digits) {
        Ok(count) => count,
        Err(e) => {
            return Err(CleanupParseError::InvalidDurationInt(e));
        },
    };
    let ghost after_digits = input@;
    let key = take_from_slice_while(input, unit_byte);
    let ghost e = d + key@.len();
    proof {
        assert forall|j: int| d <= j < e implies is_unit_byte(s[j]) by {
            assert(s[j] == after_digits[j - d]);
        }
        if e < s.len() {
            assert(s[e] == after_digits[key@.len() as int]);
        }
        lemma_run_end_at(s, d, e, |b: u8| is_unit_byte(b));
        assert(key@ =~= s.subrange(d, e));
        assert(input@ =~= s.subrange(e, s.len() as int));
    }
    let unit = match unit_of(key) {
        Some(unit) => unit,
        None => {
            return Err(CleanupParseError::InvalidDurationKeyword(slice_to_vec(key)));
        },
    };
    assert(count as u128 * unit <= u64::MAX as u128 * YEAR) by (nonlinear_arith)
        requires
            unit <= YEAR,
    ;
    let total = count as u128 * unit;
    if total > MAX_NANOS {
        return Err(CleanupParseError::OverflowedDuration(slice_to_vec(part_input)));
    }
    Ok(Duration { nanos: total })
}

/// Reads a duration: one or more parts `<count><unit>`, added up.
pub fn parse_duration(input: &[u8]) -> (r: Result<Duration, CleanupParseError>)
    ensures
        match duration_of(input@) {
            Ok(v) => r matches Ok(d) && d.wf() && d.spec_nanos() == v,
            Err(e) => r matches Err(x) && x@ == e,
        },
{
    let mut rest: &[u8] = input;
    proof {
        lemma_duration_part_takes_bytes(input@);
    }
    let mut acc = match parse_duration_part(&mut rest) {
        Ok(d) => d,
        Err(e) => {
            return Err(e);
        },
    };
    while rest.len() > 0
        invariant
            acc.wf(),
            rest@.len() <= input@.len(),
            rest@ == input@.subrange(input@.len() - rest@.len(), input@.len() as int),
            duration_of(input@) == duration_rest(
                input@,
                input@.len() - rest@.len(),
                acc.spec_nanos(),
            ),
        decreases rest@.len(),
    {
        let ghost i = input@.len() - rest@.len();
        let ghost before = rest@;
        proof {
            lemma_duration_part_takes_bytes(before);
        }
        let part = match parse_duration_part(&mut rest) {
            Ok(d) => d,
            Err(e) => {
                return Err(e);
            },
        };
        proof {
            assert(rest@ =~= input@.subrange(input@.len() - rest@.len(), input@.len() as int));
        }
        acc = match acc.checked_add(part) {
            Some(sum) => sum,
            None => {
                return Err(CleanupParseError::OverflowedDuration(slice_to_vec(input)));
            },
        };
    }
    Ok(acc)
}

} // verus!

verus! {

/// The setting that the timestamp letter `c` stands for in `age`, if any.
pub open spec fn age_flag(age: CleanupAge, c: u8) -> Option<bool> {
    if c == 0x61 {
        Some(age.consider_atime)
    } else if c == 0x41 {
        Some(age.consider_atime_dir)
    } else if c == 0x62 {
        Some(age.consider_btime)
    } else if c == 0x42 {
        Some(age.consider_btime_dir)
    } else if c == 0x63 {
        Some(age.consider_ctime)
    } else if c == 0x43 {
        Some(age.consider_ctime_dir)
    } else if c == 0x6d {
        Some(age.consider_mtime)
    } else if c == 0x4d {
        Some(age.consider_mtime_dir)
    } else {
        None
    }
}

/// `age` with the setting that the timestamp letter `c` stands for turned on.
pub open spec fn set_age_flag(age: CleanupAge, c: u8) -> CleanupAge {
    if c == 0x61 {
        CleanupAge { consider_atime: true, ..age }
    } else if c == 0x41 {
        CleanupAge { consider_atime_dir: true, ..age }
    } else if c == 0x62 {
        CleanupAge { consider_btime: true, ..age }
    } else if c == 0x42 {
        CleanupAge { consider_btime_dir: true, ..age }
    } else if c == 0x63 {
        CleanupAge { consider_ctime: true, ..age }
    } else if c == 0x43 {
        CleanupAge { consider_ctime_dir: true, ..age }
    } else if c == 0x6d {
        CleanupAge { consider_mtime: true, ..age }
    } else if c == 0x4d {
        CleanupAge { consider_mtime_dir: true, ..age }
    } else {
        age
    }
}

/// Turns on, one letter after another from position `i`, the settings that
/// the letters name; each letter may come once.
pub open spec fn apply_age_flags(letters: Seq<u8>, i: int, age: CleanupAge) -> Result<
    CleanupAge,
    CleanupErrorView,
>
    decreases letters.len() - i,
{
    if i < 0 || i >= letters.len() {
        Ok(age)
    } else {
        let c = letters[i];
        match age_flag(age, c) {
            None => Err(CleanupErrorView::InvalidCleanupSpecifier(c)),
            Some(true) => Err(CleanupErrorView::DuplicateCleanupSpecifier(c)),
            Some(false) => apply_age_flags(letters, i + 1, set_age_flag(age, c)),
        }
    }
}

/// The settings that the list of timestamp letters `s` (before the `:`)
/// gives, with an optional leading `~`.
pub open spec fn cleanup_age_by(s: Seq<u8>) -> Result<CleanupAge, CleanupErrorView> {
    let second_level = s.len() > 0 && s[0] == 0x7e;
    let letters = if second_level {
        s.subrange(1, s.len() as int)
    } else {
        s
    };
    if letters.len() == 0 {
        Err(CleanupErrorView::EmptyCleanupSpecifierList)
    } else {
        apply_age_flags(
            letters,
            0,
            CleanupAge {
                age: Duration { nanos: 0 },
                second_level,
                consider_atime: false,
                consider_atime_dir: false,
                consider_btime: false,
                consider_btime_dir: false,
                consider_ctime: false,
                consider_ctime_dir: false,
                consider_mtime: false,
                consider_mtime_dir: false,
            },
        )
    }
}

pub open spec fn is_not_colon(b: u8) -> bool {
    b != 0x3a
}

/// The settings that a whole age field `s` gives: an optional list of
/// timestamp letters and a `:`, then a duration.
pub open spec fn cleanup_age_of(s: Seq<u8>) -> Result<CleanupAge, CleanupErrorView> {
    let k = run_end(s, 0, |b: u8| is_not_colon(b));
    let (flags, duration) = if k >= s.len() {
        (Ok(empty_cleanup_age()), s)
    } else if run_end(s, k + 1, |b: u8| is_not_colon(b)) < s.len() {
        (Err(CleanupErrorView::Malformed(s)), s)
    } else {
        (cleanup_age_by(s.subrange(0, k)), s.subrange(k + 1, s.len() as int))
    };
    match flags {
        Err(e) => Err(e),
        Ok(age) => match duration_of(duration) {
            Err(e) => Err(e),
            Ok(n) => Ok(CleanupAge { age: Duration { nanos: n as u128 }, ..age }),
        },
    }
}

/// Reads a list of timestamp letters, with an optional leading `~`.
pub fn parse_cleanup_age_by(input: &[u8]) -> (r: Result<CleanupAge, CleanupParseError>)
    ensures
        match cleanup_age_by(input@) {
            Ok(age) => r == Ok::<CleanupAge, CleanupParseError>(age),
            Err(e) => r matches Err(x) && x@ == e,
        },
{
    let mut letters: &[u8] = input;
    let ghost s = input@;
    let tilde: [u8; 1] = [0x7e];
    assert(tilde@ =~= seq![0x7eu8]);
    let second_level = take_string_from_slice(&mut letters, &tilde).is_some();
    proof {
        if s.len() > 0 && s[0] == 0x7e {
            assert(s.subrange(0, 1) =~= seq![0x7eu8]);
        }
    }
    let mut flags = CleanupAge {
        age: Duration { nanos: 0 },
        second_level,
        consider_atime: false,
        consider_atime_dir: false,
        consider_btime: false,
        consider_btime_dir: false,
        consider_ctime: false,
        consider_ctime_dir: false,
        consider_mtime: false,
        consider_mtime_dir: false,
    };
    if letters.len() == 0 {
        return Err(CleanupParseError::EmptyCleanupSpecifierList);
    }
    let mut i: usize = 0;
    while i < letters.len()
        invariant
            i <= letters@.len(),
            s == input@,
            cleanup_age_by(s) == apply_age_flags(letters@, i as int, flags),
        decreases letters@.len() - i,
    {
        let ch = letters[i];
        let already_set = if ch == 0x61 {
            flags.consider_atime
        } else if ch == 0x41 {
            flags.consider_atime_dir
        } else if ch == 0x62 {
            flags.consider_btime
        } else if ch == 0x42 {
            flags.consider_btime_dir
        } else if ch == 0x63 {
            flags.consider_ctime
        } else if ch == 0x43 {
            flags.consider_ctime_dir
        } else if ch == 0x6d {
            flags.consider_mtime
        } else if ch == 0x4d {
            flags.consider_mtime_dir
        } else {
            return Err(CleanupParseError::InvalidCleanupSpecifier(ch));
        };
        if already_set {
            return Err(CleanupParseError::DuplicateCleanupSpecifier(ch));
        }
        if ch == 0x61 {
            flags.consider_atime = true;
        } else if ch == 0x41 {
            flags.consider_atime_dir = true;
        } else if ch == 0x62 {
            flags.consider_btime = true;
        } else if ch == 0x42 {
            flags.consider_btime_dir = true;
        } else if ch == 0x63 {
            flags.consider_ctime = true;
        } else if ch == 0x43 {
            flags.consider_ctime_dir = true;
        } else if ch == 0x6d {
            flags.consider_mtime = true;
        } else {
            flags.consider_mtime_dir = true;
        }
        i = i + 1;
    }
    Ok(flags)
}

fn is_colon_free(c: u8) -> (r: bool)
    ensures
        r == is_not_colon(c),
{
    c != 0x3a
}

/// Reads an age field: an optional list of timestamp letters and a `:`,
/// then a duration. Without a list, the settings are those of
/// `CleanupAge::empty`.
pub fn parse_cleanup_age(input: &[u8]) -> (r: Result<CleanupAge, CleanupParseError>)
    ensures
        match cleanup_age_of(input@) {
            Ok(age) => r == Ok::<CleanupAge, CleanupParseError>(age),
            Err(e) => r matches Err(x) && x@ == e,
        },
{
    let ghost s = input@;
    let mut rest: &[u8] = input;
    let flags_part = take_from_slice_while(&mut rest, is_colon_free);
    let ghost k = flags_part@.len() as int;
    proof {
        lemma_run_end_at(s, 0, k, |b: u8| is_not_colon(b));
    }
    let (mut cleanup_age, duration) = if rest.len() == 0 {
        (CleanupAge::empty(), input)
    } else {
        let duration: &[u8] = slice_subrange(rest, 1, rest.len());
        let mut tail: &[u8] = duration;
        let second = take_from_slice_while(&mut tail, is_colon_free);
        proof {
            let k2 = k + 1 + second@.len();
            assert forall|j: int| k + 1 <= j < k2 implies is_not_colon(s[j]) by {
                assert(s[j] == duration@[j - k - 1]);
            }
            if k2 < s.len() {
                assert(s[k2] == duration@[second@.len() as int]);
            }
            lemma_run_end_at(s, k + 1, k2, |b: u8| is_not_colon(b));
            assert(duration@ =~= s.subrange(k + 1, s.len() as int));
            assert(flags_part@ =~= s.subrange(0, k));
        }
        if tail.len() != 0 {
            return Err(CleanupParseError::Malformed(slice_to_vec(input)));
        }
        match parse_cleanup_age_by(flags_part) {
            Ok(age) => (age, duration),
            Err(e) => {
                return Err(e);
            },
        }
    };
    match parse_duration(duration) {
        Ok(age) => {
            cleanup_age.age = age;
        },
        Err(e) => {
            return Err(e);
        },
    }
    Ok(cleanup_age)
}

} // verus!
