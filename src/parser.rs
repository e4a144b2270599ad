//! Reading each field of a line, whole lines, and whole files.

use base64::engine::Engine;
use vstd::prelude::*;
use vstd::slice::{slice_subrange, slice_to_vec};
use vstd::utf8::{decode_utf8, valid_utf8};

pub use crate::cleanup::{
    parse_cleanup_age, parse_cleanup_age_by, parse_duration, parse_duration_part,
    CleanupParseError,
};
pub use crate::field::{take_field, take_inline_whitespace, FieldParseError};
pub use crate::span::{FileSpan, Lines, SpanCursor};

use crate::bytes::{lemma_digits_value_none, lemma_radix_digits_value_bound, lemma_run_end, octal_bound, lemma_run_end_at, parse_unsigned, radix_digits_value, run_end, take_from_slice_while, unsigned_value};
use crate::cleanup::{cleanup_age_of, CleanupErrorView};
use crate::field::{field_of, is_blank, lemma_field_of_end};
use std::ops::Range;
use crate::config_file::{
    empty_cleanup_age, sections_view, specifier_of, CleanupAge, FileOwner, Line, LineAction, LineType, Mode, ModeBehavior, Specifier,
    Spanned, SpecifierString,
};

verus! {

#[verifier::external_type_specification]
#[verifier::external_body]
pub struct ExDecodeError(base64::DecodeError);

#[derive(Debug, PartialEq, Eq)]
pub enum ParseError {
    IllegalParseType(u8),
    LeadingWhitespace,
    EmptyParseType,
    InvalidTypeCombination(u8, u8),
    InvalidTypeModifier(u8),
    InvalidMode,
    DuplicateTypeModifier(u8),
    IDKWhatAServiceCredentialIs,
    InvalidCleanupAge(CleanupParseError),
    InvalidUsername,
    NullInPath,
    Field(FieldParseError),
    NonabsolutePath,
    InvalidSpecifier(u8),
    EmptyPath,
    IncompleteSpecifier,
    Base64Decode(base64::DecodeError),
}

/// What a `ParseError` says, with its bytes as sequences.
pub enum ParseErrorView {
    IllegalParseType(u8),
    LeadingWhitespace,
    EmptyParseType,
    InvalidTypeCombination(u8, u8),
    InvalidTypeModifier(u8),
    InvalidMode,
    DuplicateTypeModifier(u8),
    IDKWhatAServiceCredentialIs,
    InvalidCleanupAge(CleanupErrorView),
    InvalidUsername,
    NullInPath,
    Field(FieldParseError),
    NonabsolutePath,
    InvalidSpecifier(u8),
    EmptyPath,
    IncompleteSpecifier,
    Base64Decode,
}

impl View for ParseError {
    type V = ParseErrorView;

    open spec fn view(&self) -> ParseErrorView {
        match self {
            ParseError::IllegalParseType(c) => ParseErrorView::IllegalParseType(*c),
            ParseError::LeadingWhitespace => ParseErrorView::LeadingWhitespace,
            ParseError::EmptyParseType => ParseErrorView::EmptyParseType,
            ParseError::InvalidTypeCombination(a, b) => ParseErrorView::InvalidTypeCombination(*a, *b),
            ParseError::InvalidTypeModifier(c) => ParseErrorView::InvalidTypeModifier(*c),
            ParseError::InvalidMode => ParseErrorView::InvalidMode,
            ParseError::DuplicateTypeModifier(c) => ParseErrorView::DuplicateTypeModifier(*c),
            ParseError::IDKWhatAServiceCredentialIs => ParseErrorView::IDKWhatAServiceCredentialIs,
            ParseError::InvalidCleanupAge(e) => ParseErrorView::InvalidCleanupAge(e@),
            ParseError::InvalidUsername => ParseErrorView::InvalidUsername,
            ParseError::NullInPath => ParseErrorView::NullInPath,
            ParseError::Field(e) => ParseErrorView::Field(*e),
            ParseError::NonabsolutePath => ParseErrorView::NonabsolutePath,
            ParseError::InvalidSpecifier(c) => ParseErrorView::InvalidSpecifier(*c),
            ParseError::EmptyPath => ParseErrorView::EmptyPath,
            ParseError::IncompleteSpecifier => ParseErrorView::IncompleteSpecifier,
            ParseError::Base64Decode(_) => ParseErrorView::Base64Decode,
        }
    }
}

impl From<FieldParseError> for ParseError {
    fn from(value: FieldParseError) -> (r: Self)
        ensures
            r == ParseError::Field(value),
    {
        ParseError::Field(value)
    }
}

impl vstd::std_specs::convert::FromSpecImpl<FieldParseError> for ParseError {
    open spec fn obeys_from_spec() -> bool {
        true
    }

    open spec fn from_spec(v: FieldParseError) -> ParseError {
        ParseError::Field(v)
    }
}

impl From<CleanupParseError> for ParseError {
    fn from(value: CleanupParseError) -> (r: Self)
        ensures
            r == ParseError::InvalidCleanupAge(value),
    {
        ParseError::InvalidCleanupAge(value)
    }
}

impl vstd::std_specs::convert::FromSpecImpl<CleanupParseError> for ParseError {
    open spec fn obeys_from_spec() -> bool {
        true
    }

    open spec fn from_spec(v: CleanupParseError) -> ParseError {
        ParseError::InvalidCleanupAge(v)
    }
}

impl From<base64::DecodeError> for ParseError {
    fn from(value: base64::DecodeError) -> (r: Self)
        ensures
            r == ParseError::Base64Decode(value),
    {
        ParseError::Base64Decode(value)
    }
}

impl vstd::std_specs::convert::FromSpecImpl<base64::DecodeError> for ParseError {
    open spec fn obeys_from_spec() -> bool {
        true
    }

    open spec fn from_spec(v: base64::DecodeError) -> ParseError {
        ParseError::Base64Decode(v)
    }
}

// ---- The type field ----

/// The action that the first letter of the type field names.
pub open spec fn action_of(c: u8) -> Option<LineAction> {
    if c == 0x66 || c == 0x46 {
        Some(LineAction::CreateFile)  // 'f', 'F'
    } else if c == 0x77 {
        Some(LineAction::WriteFile)  // 'w'
    } else if c == 0x64 || c == 0x76 || c == 0x71 || c == 0x51 {
        Some(LineAction::CreateAndCleanUpDirectory)  // 'd', 'v', 'q', 'Q'
    } else if c == 0x44 {
        Some(LineAction::CreateAndRemoveDirectory)  // 'D'
    } else if c == 0x65 {
        Some(LineAction::CleanUpDirectory)  // 'e'
    } else if c == 0x70 {
        Some(LineAction::CreateFifo)  // 'p'
    } else if c == 0x4c {
        Some(LineAction::CreateSymlink)  // 'L'
    } else if c == 0x63 {
        Some(LineAction::CreateCharDevice)  // 'c'
    } else if c == 0x62 {
        Some(LineAction::CreateBlockDevice)  // 'b'
    } else if c == 0x43 {
        Some(LineAction::Copy)  // 'C'
    } else if c == 0x78 {
        Some(LineAction::Ignore)  // 'x'
    } else if c == 0x58 {
        Some(LineAction::IgnoreNonRecursive)  // 'X'
    } else if c == 0x72 {
        Some(LineAction::Remove)  // 'r'
    } else if c == 0x52 {
        Some(LineAction::RemoveRecursive)  // 'R'
    } else if c == 0x7a {
        Some(LineAction::SetMode)  // 'z'
    } else if c == 0x5a {
        Some(LineAction::SetModeRecursive)  // 'Z'
    } else if c == 0x74 {
        Some(LineAction::SetXattr)  // 't'
    } else if c == 0x54 {
        Some(LineAction::SetXattrRecursive)  // 'T'
    } else if c == 0x68 {
        Some(LineAction::SetAttr)  // 'h'
    } else if c == 0x48 {
        Some(LineAction::SetAttrRecursive)  // 'H'
    } else if c == 0x61 {
        Some(LineAction::SetAcl)  // 'a'
    } else if c == 0x41 {
        Some(LineAction::SetAclRecursive)  // 'A'
    } else {
        None
    }
}

/// One of the modifiers `+ - ! = ~ ^`.
pub open spec fn is_modifier(c: u8) -> bool {
    c == 0x2b || c == 0x2d || c == 0x21 || c == 0x3d || c == 0x7e || c == 0x5e
}

/// The type letters that take the `+` modifier: `f w p L c b C a A`.
pub open spec fn can_recreate(c: u8) -> bool {
    c == 0x66 || c == 0x77 || c == 0x70 || c == 0x4c || c == 0x63 || c == 0x62 || c == 0x43
        || c == 0x61 || c == 0x41
}

/// Reads the modifiers of `m` from position `i` on, given those already seen.
pub open spec fn modifiers_from(m: Seq<u8>, i: int, seen: Set<u8>) -> Result<
    Set<u8>,
    ParseErrorView,
>
    decreases m.len() - i,
{
    if i < 0 || i >= m.len() {
        Ok(seen)
    } else {
        let c = m[i];
        if !is_modifier(c) {
            Err(ParseErrorView::InvalidTypeModifier(c))
        } else if seen.contains(c) {
            Err(ParseErrorView::DuplicateTypeModifier(c))
        } else {
            modifiers_from(m, i + 1, seen.insert(c))
        }
    }
}

/// The line type that the type field `s` gives, and whether the argument is
/// base64.
pub open spec fn line_type_of(s: Seq<u8>) -> Result<(LineType, bool), ParseErrorView> {
    if s.len() == 0 {
        Err(ParseErrorView::EmptyParseType)
    } else {
        let c0 = s[0];
        match action_of(c0) {
            None => Err(ParseErrorView::IllegalParseType(c0)),
            Some(action) => {
                // `F` is `f` with `+`
                let letter = if c0 == 0x46 {
                    0x66u8
                } else {
                    c0
                };
                let preset = if c0 == 0x46 {
                    set![0x2bu8]
                } else {
                    Set::empty()
                };
                match modifiers_from(s, 1, preset) {
                    Err(e) => Err(e),
                    Ok(seen) => if seen.contains(0x2b) && !can_recreate(letter) {
                        Err(ParseErrorView::InvalidTypeCombination(letter, 0x2b))
                    } else if seen.contains(0x5e) {
                        Err(ParseErrorView::IDKWhatAServiceCredentialIs)
                    } else {
                        Ok(
                            (
                                LineType {
                                    action,
                                    recreate: seen.contains(0x2b),
                                    boot: seen.contains(0x21),
                                    noerror: seen.contains(0x2d),
                                    force: seen.contains(0x3d),
                                },
                                seen.contains(0x7e),
                            ),
                        )
                    },
                }
            },
        }
    }
}

/// Reads the type field: an action letter, then modifiers.
pub fn parse_type(input: &[u8]) -> (r: Result<(LineType, bool), ParseError>)
    ensures
        match line_type_of(input@) {
            Ok(v) => r == Ok::<(LineType, bool), ParseError>(v),
            Err(e) => r matches Err(x) && x@ == e,
        },
{
    if input.len() == 0 {
        return Err(ParseError::EmptyParseType);
    }
    let first = input[0];
    let mut letter = first;
    let mut plus = false;
    let action = match first {
        0x66 => LineAction::CreateFile,  // 'f'
        0x46 => {  // 'F'
            plus = true;
            letter = 0x66;
            LineAction::CreateFile
        },
        0x77 => LineAction::WriteFile,  // 'w'
        0x64 | 0x76 | 0x71 | 0x51 => LineAction::CreateAndCleanUpDirectory,  // 'd', 'v', 'q', 'Q'
        0x44 => LineAction::CreateAndRemoveDirectory,  // 'D'
        0x65 => LineAction::CleanUpDirectory,  // 'e'
        0x70 => LineAction::CreateFifo,  // 'p'
        0x4c => LineAction::CreateSymlink,  // 'L'
        0x63 => LineAction::CreateCharDevice,  // 'c'
        0x62 => LineAction::CreateBlockDevice,  // 'b'
        0x43 => LineAction::Copy,  // 'C'
        0x78 => LineAction::Ignore,  // 'x'
        0x58 => LineAction::IgnoreNonRecursive,  // 'X'
        0x72 => LineAction::Remove,  // 'r'
        0x52 => LineAction::RemoveRecursive,  // 'R'
        0x7a => LineAction::SetMode,  // 'z'
        0x5a => LineAction::SetModeRecursive,  // 'Z'
        0x74 => LineAction::SetXattr,  // 't'
        0x54 => LineAction::SetXattrRecursive,  // 'T'
        0x68 => LineAction::SetAttr,  // 'h'
        0x48 => LineAction::SetAttrRecursive,  // 'H'
        0x61 => LineAction::SetAcl,  // 'a'
        0x41 => LineAction::SetAclRecursive,  // 'A'
        _ => {
            return Err(ParseError::IllegalParseType(first));
        },
    };
    let mut minus = false;
    let mut exclamation = false;
    let mut equals = false;
    let mut tilde = false;
    let mut caret = false;
    let ghost mut seen: Set<u8> = if first == 0x46 {
        set![0x2bu8]
    } else {
        Set::empty()
    };
    let mut i: usize = 1;
    while i < input.len()
        invariant
            1 <= i <= input@.len(),
            first == input@[0],
            action_of(first) == Some(action),
            plus == seen.contains(0x2b),
            minus == seen.contains(0x2d),
            exclamation == seen.contains(0x21),
            equals == seen.contains(0x3d),
            tilde == seen.contains(0x7e),
            caret == seen.contains(0x5e),
            forall|c: u8| seen.contains(c) ==> is_modifier(c),
            modifiers_from(input@, 1, if first == 0x46 {
                set![0x2bu8]
            } else {
                Set::empty()
            }) == modifiers_from(input@, i as int, seen),
        decreases input@.len() - i,
    {
        let c = input[i];
        let already_seen = match c {
            0x2b => plus,
            0x2d => minus,
            0x21 => exclamation,
            0x3d => equals,
            0x7e => tilde,
            0x5e => caret,
            _ => {
                return Err(ParseError::InvalidTypeModifier(c));
            },
        };
        if already_seen {
            return Err(ParseError::DuplicateTypeModifier(c));
        }
        match c {
            0x2b => plus = true,
            0x2d => minus = true,
            0x21 => exclamation = true,
            0x3d => equals = true,
            0x7e => tilde = true,
            _ => caret = true,
        }
        proof {
            seen = seen.insert(c);
        }
        i = i + 1;
    }
    let recreate = if plus {
        if letter == 0x66 || letter == 0x77 || letter == 0x70 || letter == 0x4c || letter == 0x63
            || letter == 0x62 || letter == 0x43 || letter == 0x61 || letter == 0x41 {
            true
        } else {
            return Err(ParseError::InvalidTypeCombination(letter, 0x2b));
        }
    } else {
        false
    };
    if caret {
        return Err(ParseError::IDKWhatAServiceCredentialIs);
    }
    Ok((LineType { action, recreate, boot: exclamation, noerror: minus, force: equals }, tilde))
}

// ---- The mode field ----

/// The mode that the mode field `s` gives: an optional `:` or `~`, then three
/// or four octal digits and nothing else.
pub open spec fn mode_of(s: Seq<u8>) -> Result<Mode, ParseErrorView> {
    let mode_behavior = if s.len() > 0 && s[0] == 0x3a {
        ModeBehavior::KeepExisting
    } else if s.len() > 0 && s[0] == 0x7e {
        ModeBehavior::Masked
    } else {
        ModeBehavior::Default
    };
    let digits = if mode_behavior == ModeBehavior::Default {
        s
    } else {
        s.subrange(1, s.len() as int)
    };
    if !(3 <= digits.len() <= 4) {
        Err(ParseErrorView::InvalidMode)
    } else {
        match radix_digits_value(digits, 8) {
            Some(v) => Ok(Mode { value: v as u32, mode_behavior }),
            None => Err(ParseErrorView::InvalidMode),
        }
    }
}

/// Reads the mode field.
pub fn parse_mode(input: &[u8]) -> (r: Result<Mode, ParseError>)
    ensures
        match mode_of(input@) {
            Ok(m) => r == Ok::<Mode, ParseError>(m),
            Err(e) => r matches Err(x) && x@ == e,
        },
{
    let mode_behavior = if input.len() > 0 && input[0] == 0x3a {
        ModeBehavior::KeepExisting
    } else if input.len() > 0 && input[0] == 0x7e {
        ModeBehavior::Masked
    } else {
        ModeBehavior::Default
    };
    let digits: &[u8] = match mode_behavior {
        ModeBehavior::Default => input,
        _ => slice_subrange(input, 1, input.len()),
    };
    proof {
        if mode_behavior == ModeBehavior::Default {
            assert(digits@ =~= input@);
        }
    }
    if digits.len() < 3 || digits.len() > 4 {
        return Err(ParseError::InvalidMode);
    }
    // Only octal digits: no sign.
    if digits[0] == 0x2b {
        proof {
            lemma_digits_value_none(digits@, 0, 1, 8);
            assert(digits@.subrange(0, digits@.len() as int) =~= digits@);
        }
        return Err(ParseError::InvalidMode);
    }
    proof {
        lemma_radix_digits_value_bound(digits@, 8);
        assert(octal_bound(4) == 4096) by {
            reveal_with_fuel(octal_bound, 5);
        }
        assert(octal_bound(3) == 512) by {
            reveal_with_fuel(octal_bound, 4);
        }
    }
    match parse_unsigned(digits, 8, 0xffff_ffff) {
        Some(value) => Ok(Mode { value: value as u32, mode_behavior }),
        None => Err(ParseError::InvalidMode),
    }
}

// ---- The user and group fields ----

/// What a `FileOwner` says, with a name as its characters.
pub enum FileOwnerView {
    Id(u32),
    Name(Seq<char>),
}

impl View for FileOwner {
    type V = FileOwnerView;

    open spec fn view(&self) -> FileOwnerView {
        match self {
            FileOwner::Id(id) => FileOwnerView::Id(*id),
            FileOwner::Name(name) => FileOwnerView::Name(name@),
        }
    }
}

/// The owner that a user or group field `s` names: a number where it reads
/// as one that fits `u32`, else a name.
pub open spec fn owner_of(s: Seq<u8>) -> Result<FileOwnerView, ParseErrorView> {
    if !valid_utf8(s) {
        Err(ParseErrorView::InvalidUsername)
    } else {
        match unsigned_value(s, 10) {
            Some(v) => if v <= u32::MAX {
                Ok(FileOwnerView::Id(v as u32))
            } else {
                Ok(FileOwnerView::Name(decode_utf8(s)))
            },
            None => Ok(FileOwnerView::Name(decode_utf8(s))),
        }
    }
}

/// Relies on `String::from_utf8` (std): it accepts exactly the valid UTF-8
/// byte strings and gives the characters they encode.
#[verifier::external_body]
fn string_from_utf8(bytes: Vec<u8>) -> (r: Option<String>)
    ensures
        match r {
            Some(s) => valid_utf8(bytes@) && s@ == decode_utf8(bytes@),
            None => !valid_utf8(bytes@),
        },
{
    String::from_utf8(bytes).ok()
}

/// Reads a user or group field.
pub fn parse_user(input: Vec<u8>) -> (r: Result<FileOwner, ParseError>)
    ensures
        match owner_of(input@) {
            Ok(o) => r matches Ok(x) && x@ == o,
            Err(e) => r matches Err(x) && x@ == e,
        },
{
    let id = parse_unsigned(input.as_slice(), 10, 0xffff_ffff);
    let ghost bytes = input@;
    let string = match string_from_utf8(input) {
        Some(s) => s,
        None => {
            return Err(ParseError::InvalidUsername);
        },
    };
    match id {
        Some(id) => Ok(FileOwner::Id(id as u32)),
        None => Ok(FileOwner::Name(string)),
    }
}

// ---- The path field ----

pub open spec fn is_not_percent(b: u8) -> bool {
    b != 0x25
}

/// Puts `first` in front of the sections of a successful split.
pub open spec fn prepend_sections(
    first: Seq<(Specifier, Seq<u8>)>,
    r: Result<Seq<(Specifier, Seq<u8>)>, ParseErrorView>,
) -> Result<Seq<(Specifier, Seq<u8>)>, ParseErrorView> {
    match r {
        Ok(rest) => Ok(first + rest),
        Err(e) => Err(e),
    }
}

/// The specifiers of `s` from position `i` on, where a `%` stands, each with
/// the bytes that follow it up to the next `%`.
pub open spec fn specifier_sections(s: Seq<u8>, i: int) -> Result<
    Seq<(Specifier, Seq<u8>)>,
    ParseErrorView,
>
    decreases s.len() - i,
    via specifier_sections_decreases
{
    if i < 0 || i >= s.len() {
        Ok(Seq::empty())
    } else if i + 1 >= s.len() {
        Err(ParseErrorView::IncompleteSpecifier)
    } else {
        match specifier_of(s[i + 1]) {
            None => Err(ParseErrorView::InvalidSpecifier(s[i + 1])),
            Some(specifier) => {
                let e = run_end(s, i + 2, |b: u8| is_not_percent(b));
                prepend_sections(
                    seq![(specifier, s.subrange(i + 2, e))],
                    specifier_sections(s, e),
                )
            },
        }
    }
}

#[via_fn]
proof fn specifier_sections_decreases(s: Seq<u8>, i: int) {
    if 0 <= i && i + 1 < s.len() {
        lemma_run_end(s, i + 2, |b: u8| is_not_percent(b));
    }
}

/// `s` split at each `%`: the bytes before the first, then each specifier
/// with the bytes that follow it.
pub open spec fn specifiers_of(s: Seq<u8>) -> Result<
    (Seq<u8>, Seq<(Specifier, Seq<u8>)>),
    ParseErrorView,
> {
    let k = run_end(s, 0, |b: u8| is_not_percent(b));
    match specifier_sections(s, k) {
        Ok(sections) => Ok((s.subrange(0, k), sections)),
        Err(e) => Err(e),
    }
}

fn percent_free(c: u8) -> (r: bool)
    ensures
        r == is_not_percent(c),
{
    c != 0x25
}

/// Splits a path at its specifiers.
pub fn parse_specifiers(input: Vec<u8>) -> (r: Result<SpecifierString, ParseError>)
    ensures
        match specifiers_of(input@) {
            Ok(v) => r matches Ok(x) && x@ == v,
            Err(e) => r matches Err(x) && x@ == e,
        },
{
    let ghost s = input@;
    let mut rest: &[u8] = input.as_slice();
    let leading = take_from_slice_while(&mut rest, percent_free);
    let ghost k = leading@.len() as int;
    proof {
        lemma_run_end_at(s, 0, k, |b: u8| is_not_percent(b));
        assert(leading@ =~= s.subrange(0, k));
        assert(sections_view(Seq::<(Specifier, Vec<u8>)>::empty()) =~= Seq::empty());
    }
    let mut sections: Vec<(Specifier, Vec<u8>)> = Vec::new();
    while rest.len() > 0
        invariant
            s == input@,
            k == run_end(s, 0, |b: u8| is_not_percent(b)),
            rest@.len() <= s.len(),
            rest@ == s.subrange(s.len() - rest@.len(), s.len() as int),
            rest@.len() > 0 ==> rest@[0] == 0x25,
            specifier_sections(s, k) == prepend_sections(
                sections_view(sections@),
                specifier_sections(s, s.len() - rest@.len()),
            ),
        decreases rest@.len(),
    {
        let ghost i = s.len() - rest@.len();
        assert(s[i] == rest@[0]);
        if rest.len() < 2 {
            return Err(ParseError::IncompleteSpecifier);
        }
        let head = rest[1];
        assert(s[i + 1] == head);
        let specifier = match Specifier::parse(head) {
            Some(specifier) => specifier,
            None => {
                return Err(ParseError::InvalidSpecifier(head));
            },
        };
        rest = slice_subrange(rest, 2, rest.len());
        let ghost after = rest@;
        let next_segment = take_from_slice_while(&mut rest, percent_free);
        let ghost e = i + 2 + next_segment@.len();
        proof {
            assert forall|j: int| i + 2 <= j < e implies is_not_percent(s[j]) by {
                assert(s[j] == after[j - i - 2]);
            }
            if e < s.len() {
                assert(s[e] == after[next_segment@.len() as int]);
            }
            lemma_run_end_at(s, i + 2, e, |b: u8| is_not_percent(b));
            assert(next_segment@ =~= s.subrange(i + 2, e));
            assert(rest@ =~= s.subrange(e, s.len() as int));
        }
        let ghost old_sections = sections@;
        sections.push((specifier, slice_to_vec(next_segment)));
        proof {
            assert(sections_view(sections@) =~= sections_view(old_sections) + seq![
                (specifier, s.subrange(i + 2, e)),
            ]);
            match specifier_sections(s, e) {
                Ok(tail) => {
                    assert(sections_view(old_sections) + (seq![(specifier, s.subrange(i + 2, e))]
                        + tail) =~= sections_view(sections@) + tail);
                },
                Err(_) => {},
            }
        }
    }
    proof {
        match specifier_sections(s, k) {
            Ok(all) => {
                assert(all =~= sections_view(sections@));
            },
            Err(_) => {},
        }
    }
    Ok(SpecifierString(slice_to_vec(leading), sections))
}

/// The specifiers that stand for an absolute path, and so may begin one.
pub open spec fn expands_to_absolute(specifier: Specifier) -> bool {
    match specifier {
        Specifier::CacheDir | Specifier::UserHome | Specifier::LogDir | Specifier::StateDir
        | Specifier::RuntimeDir | Specifier::TempDir | Specifier::PersistentTempDir => true,
        _ => false,
    }
}

/// The path that the path field `s` gives: split at its specifiers, with no
/// NUL byte, and absolute or begun by a specifier that stands for an
/// absolute path.
pub open spec fn path_of(s: Seq<u8>) -> Result<(Seq<u8>, Seq<(Specifier, Seq<u8>)>), ParseErrorView> {
    match specifiers_of(s) {
        Err(e) => Err(e),
        Ok((prefix, sections)) => if prefix.contains(0) || exists|j: int|
            0 <= j < sections.len() && #[trigger] sections[j].1.contains(0) {
            Err(ParseErrorView::NullInPath)
        } else if prefix.len() > 0 && prefix[0] == 0x2f {
            Ok((prefix, sections))
        } else if prefix.len() > 0 {
            Err(ParseErrorView::NonabsolutePath)
        } else if sections.len() == 0 {
            Err(ParseErrorView::EmptyPath)
        } else if expands_to_absolute(sections[0].0) {
            Ok((prefix, sections))
        } else {
            Err(ParseErrorView::NonabsolutePath)
        },
    }
}

fn contains_nul(b: &[u8]) -> (r: bool)
    ensures
        r == b@.contains(0),
{
    let mut i: usize = 0;
    while i < b.len()
        invariant
            i <= b@.len(),
            forall|j: int| 0 <= j < i ==> b@[j] != 0,
        decreases b@.len() - i,
    {
        if b[i] == 0 {
            return true;
        }
        i = i + 1;
    }
    false
}

/// Reads the path field.
pub fn parse_path(input: Vec<u8>) -> (r: Result<SpecifierString, ParseError>)
    ensures
        match path_of(input@) {
            Ok(v) => r matches Ok(x) && x@ == v,
            Err(e) => r matches Err(x) && x@ == e,
        },
{
    let string = match parse_specifiers(input) {
        Ok(string) => string,
        Err(e) => {
            return Err(e);
        },
    };
    let mut has_nul = contains_nul(string.0.as_slice());
    let mut j: usize = 0;
    while j < string.1.len() && !has_nul
        invariant
            j <= string.1@.len(),
            has_nul == (string.0@.contains(0) || exists|k: int|
                0 <= k < j && #[trigger] sections_view(string.1@)[k].1.contains(0)),
        decreases string.1@.len() - j,
    {
        has_nul = contains_nul(string.1[j].1.as_slice());
        assert(sections_view(string.1@)[j as int].1 == string.1@[j as int].1@);
        j = j + 1;
    }
    if has_nul {
        return Err(ParseError::NullInPath);
    }
    proof {
        assert forall|k: int| 0 <= k < sections_view(string.1@).len() implies !#[trigger] sections_view(string.1@)[k].1.contains(0) by {
            assert(j == string.1@.len());
        }
    }
    if string.0.len() > 0 && string.0[0] == 0x2f {
        Ok(string)
    } else if string.0.len() > 0 {
        Err(ParseError::NonabsolutePath)
    } else if string.1.len() == 0 {
        Err(ParseError::EmptyPath)
    } else {
        match string.1[0].0 {
            Specifier::CacheDir | Specifier::UserHome | Specifier::LogDir | Specifier::StateDir
            | Specifier::RuntimeDir | Specifier::TempDir | Specifier::PersistentTempDir => Ok(
                string,
            ),
            _ => Err(ParseError::NonabsolutePath),
        }
    }
}

// ---- The argument ----

/// The bytes that the standard base64 text `input` encodes, if it is valid.
pub uninterp spec fn base64_decoded(input: Seq<u8>) -> Option<Seq<u8>>;

/// Relies on base64's `Engine::decode` on `BASE64_STANDARD` (standard
/// alphabet, padding required): the decoded bytes, or an error when `input`
/// is not valid base64; the outcome depends on `input` alone.
#[verifier::external_body]
fn decode_base64(input: &[u8]) -> (r: Result<Vec<u8>, base64::DecodeError>)
    ensures
        match r {
            Ok(v) => base64_decoded(input@) == Some(v@),
            Err(_) => base64_decoded(input@) is None,
        },
{
    base64::prelude::BASE64_STANDARD.decode(input)
}

/// The argument that the rest of a line `s` gives: none when it is empty,
/// else its bytes, decoded first when the type asked for base64.
pub open spec fn argument_of(s: Seq<u8>, base64_decode: bool) -> Result<
    Option<Seq<u8>>,
    ParseErrorView,
> {
    if s.len() == 0 {
        Ok(None)
    } else if !base64_decode {
        Ok(Some(s))
    } else {
        match base64_decoded(s) {
            Some(d) => Ok(Some(d)),
            None => Err(ParseErrorView::Base64Decode),
        }
    }
}

/// Reads the argument: the rest of the line.
pub fn parse_argument(input: &[u8], base64_decode: bool) -> (r: Result<Option<Vec<u8>>, ParseError>)
    ensures
        match argument_of(input@, base64_decode) {
            Ok(None) => r matches Ok(x) && x is None,
            Ok(Some(v)) => r matches Ok(x) && x matches Some(a) && a@ == v,
            Err(e) => r matches Err(x) && x@ == e,
        },
{
    if input.len() == 0 {
        Ok(None)
    } else if base64_decode {
        match decode_base64(input) {
            Ok(decoded) => Ok(Some(decoded)),
            Err(e) => Err(ParseError::Base64Decode(e)),
        }
    } else {
        Ok(Some(slice_to_vec(input)))
    }
}

// ---- A whole line ----

/// What a line says: each field's value, with the positions in the line
/// where the field starts and ends.
pub struct LineSpec {
    pub line_type: (LineType, int, int),
    pub path: ((Seq<u8>, Seq<(Specifier, Seq<u8>)>), int, int),
    pub mode: (Option<Mode>, int, int),
    pub owner: (Option<FileOwnerView>, int, int),
    pub group: (Option<FileOwnerView>, int, int),
    pub age: (Option<CleanupAge>, int, int),
    pub argument: (Option<Seq<u8>>, int, int),
}

/// The field that starts at position `i` of the line `s`: its bytes (none
/// at the end of the line), where it starts and where it ends.
pub open spec fn field_at(s: Seq<u8>, i: int) -> Result<(Option<Seq<u8>>, int, int), ParseErrorView> {
    match field_of(s.subrange(i, s.len() as int)) {
        Err(e) => Err(ParseErrorView::Field(e)),
        Ok(None) => Ok((None, i, s.len() as int)),
        Ok(Some((d, n))) => Ok((Some(d), i, i + n)),
    }
}

/// Where the next field starts after position `i`: past spaces and tabs.
pub open spec fn skip_blanks(s: Seq<u8>, i: int) -> int {
    run_end(s, i, |b: u8| is_blank(b))
}

pub open spec fn or_empty(f: Option<Seq<u8>>) -> Seq<u8> {
    match f {
        Some(d) => d,
        None => Seq::empty(),
    }
}

/// The field `-`, which leaves a setting out.
pub open spec fn is_dash(d: Seq<u8>) -> bool {
    d == seq![0x2du8]
}

pub open spec fn mode_field(f: Option<Seq<u8>>) -> Result<Option<Mode>, ParseErrorView> {
    match f {
        None => Ok(None),
        Some(d) => if is_dash(d) {
            Ok(None)
        } else {
            match mode_of(d) {
                Ok(m) => Ok(Some(m)),
                Err(e) => Err(e),
            }
        },
    }
}

pub open spec fn owner_field(f: Option<Seq<u8>>) -> Result<Option<FileOwnerView>, ParseErrorView> {
    match f {
        None => Ok(None),
        Some(d) => if is_dash(d) {
            Ok(None)
        } else {
            match owner_of(d) {
                Ok(o) => Ok(Some(o)),
                Err(e) => Err(e),
            }
        },
    }
}

/// An absent age field gives no settings; `-` gives those of
/// `CleanupAge::empty`.
pub open spec fn age_field(f: Option<Seq<u8>>) -> Result<Option<CleanupAge>, ParseErrorView> {
    match f {
        None => Ok(None),
        Some(d) => if is_dash(d) {
            Ok(Some(empty_cleanup_age()))
        } else {
            match cleanup_age_of(d) {
                Ok(a) => Ok(Some(a)),
                Err(e) => Err(ParseErrorView::InvalidCleanupAge(e)),
            }
        },
    }
}

/// What the line `s` says, or the first error in it, reading the fields
/// from left to right.
#[verifier::opaque]
pub open spec fn line_of(s: Seq<u8>) -> Result<LineSpec, ParseErrorView> {
    if s.len() > 0 && is_blank(s[0]) {
        Err(ParseErrorView::LeadingWhitespace)
    } else {
        match field_at(s, 0) {
            Err(e) => Err(e),
            Ok((tf, t0, t1)) => match line_type_of(or_empty(tf)) {
                Err(e) => Err(e),
                Ok((line_type, base64_decode)) => match field_at(s, skip_blanks(s, t1)) {
                    Err(e) => Err(e),
                    Ok((pf, p0, p1)) => match path_of(or_empty(pf)) {
                        Err(e) => Err(e),
                        Ok(path) => match field_at(s, skip_blanks(s, p1)) {
                            Err(e) => Err(e),
                            Ok((mf, m0, m1)) => match mode_field(mf) {
                                Err(e) => Err(e),
                                Ok(mode) => match field_at(s, skip_blanks(s, m1)) {
                                    Err(e) => Err(e),
                                    Ok((of, o0, o1)) => match owner_field(of) {
                                        Err(e) => Err(e),
                                        Ok(owner) => match field_at(s, skip_blanks(s, o1)) {
                                            Err(e) => Err(e),
                                            Ok((gf, g0, g1)) => match owner_field(gf) {
                                                Err(e) => Err(e),
                                                Ok(group) => match field_at(s, skip_blanks(s, g1)) {
                                                    Err(e) => Err(e),
                                                    Ok((af, a0, a1)) => match age_field(af) {
                                                        Err(e) => Err(e),
                                                        Ok(age) => {
                                                            let r0 = skip_blanks(s, a1);
                                                            match argument_of(
                                                                s.subrange(r0, s.len() as int),
                                                                base64_decode,
                                                            ) {
                                                                Err(e) => Err(e),
                                                                Ok(argument) => Ok(
                                                                    LineSpec {
                                                                        line_type: (line_type, t0, t1),
                                                                        path: (path, p0, p1),
                                                                        mode: (mode, m0, m1),
                                                                        owner: (owner, o0, o1),
                                                                        group: (group, g0, g1),
                                                                        age: (age, a0, a1),
                                                                        argument: (argument, r0, s.len() as int),
                                                                    },
                                                                ),
                                                            }
                                                        },
                                                    },
                                                },
                                            },
                                        },
                                    },
                                },
                            },
                        },
                    },
                },
            },
        }
    }
}

/// A span of `whole` from position `start` to `end`, in the same file.
pub open spec fn covers(file: &[u8], characters: Range<usize>, whole: FileSpan, start: int, end: int) -> bool {
    &&& file == whole.file
    &&& characters.start == whole.char_range.start + start
    &&& characters.end == whole.char_range.start + end
}

pub open spec fn opt_bytes(v: Option<Vec<u8>>) -> Option<Seq<u8>> {
    match v {
        Some(b) => Some(b@),
        None => None,
    }
}

pub open spec fn opt_owner(v: Option<FileOwner>) -> Option<FileOwnerView> {
    match v {
        Some(o) => Some(o@),
        None => None,
    }
}

/// `line` holds what `l` says of the line `whole`.
pub open spec fn line_matches(line: Line, l: LineSpec, whole: FileSpan) -> bool {
    line_matches_at(line, l, whole.file, whole.char_range.start as int)
}

/// A span from position `start` to `end` of a line that begins at character
/// `base` of `file`.
pub open spec fn covers_at(f: &[u8], characters: Range<usize>, file: &[u8], base: int, start: int, end: int) -> bool {
    &&& f == file
    &&& characters.start == base + start
    &&& characters.end == base + end
}

/// `line` holds what `l` says of a line that begins at character `base` of
/// `file`.
pub open spec fn line_matches_at(line: Line, l: LineSpec, file: &[u8], base: int) -> bool {
    &&& line.line_type.data == l.line_type.0
    &&& covers_at(line.line_type.file, line.line_type.characters, file, base, l.line_type.1, l.line_type.2)
    &&& line.path.data@ == l.path.0
    &&& covers_at(line.path.file, line.path.characters, file, base, l.path.1, l.path.2)
    &&& line.mode.data == l.mode.0
    &&& covers_at(line.mode.file, line.mode.characters, file, base, l.mode.1, l.mode.2)
    &&& opt_owner(line.owner.data) == l.owner.0
    &&& covers_at(line.owner.file, line.owner.characters, file, base, l.owner.1, l.owner.2)
    &&& opt_owner(line.group.data) == l.group.0
    &&& covers_at(line.group.file, line.group.characters, file, base, l.group.1, l.group.2)
    &&& line.age.data == l.age.0
    &&& covers_at(line.age.file, line.age.characters, file, base, l.age.1, l.age.2)
    &&& opt_bytes(line.argument.data) == l.argument.0
    &&& covers_at(line.argument.file, line.argument.characters, file, base, l.argument.1, l.argument.2)
}

/// `rest` is what is left of `whole` after its first `i` bytes.
pub open spec fn rest_at(whole: FileSpan, i: int, rest: FileSpan) -> bool {
    &&& 0 <= i <= whole.bytes@.len()
    &&& rest.wf()
    &&& whole.has_suffix(i, rest)
}

/// Takes the field at position `i` of `whole` off `rest`.
fn next_field<'a, 'b>(
    rest: &mut FileSpan<'a, 'b>,
    Ghost(whole): Ghost<FileSpan<'a, 'b>>,
    Ghost(i): Ghost<int>,
) -> (r: Result<Spanned<'b, Option<Vec<u8>>>, ParseError>)
    requires
        whole.wf(),
        rest_at(whole, i, *old(rest)),
    ensures
        match field_at(whole.bytes@, i) {
            Err(e) => r matches Err(x) && x@ == e,
            Ok((d, start, end)) => r matches Ok(f) && opt_bytes(f.data) == d && covers(
                f.file,
                f.characters,
                whole,
                start,
                end,
            ) && rest_at(whole, end, *final(rest)),
        },
{
    let ghost before = *rest;
    proof {
        lemma_field_of_end(before.bytes@);
        assert(before.bytes@ =~= whole.bytes@.subrange(i, whole.bytes@.len() as int));
    }
    match take_field(rest) {
        Ok(f) => {
            proof {
                match field_of(before.bytes@) {
                    Ok(Some((d, n))) => {
                        assert(rest.bytes@ =~= whole.bytes@.subrange(i + n, whole.bytes@.len() as int));
                    },
                    _ => {},
                }
            }
            Ok(f)
        },
        Err(e) => Err(ParseError::Field(e)),
    }
}

fn blank(c: u8) -> (r: bool)
    ensures
        r == is_blank(c),
{
    c == 0x20 || c == 0x09
}

/// Skips the spaces and tabs at position `i` of `whole`, taking them off `rest`.
fn skip_to_next_field<'a, 'b>(
    rest: &mut FileSpan<'a, 'b>,
    Ghost(whole): Ghost<FileSpan<'a, 'b>>,
    Ghost(i): Ghost<int>,
)
    requires
        whole.wf(),
        rest_at(whole, i, *old(rest)),
    ensures
        rest_at(whole, skip_blanks(whole.bytes@, i), *final(rest)),
{
    let ghost before = *rest;
    take_inline_whitespace(rest);
    proof {
        let s = whole.bytes@;
        let k = i + (before.bytes@.len() - rest.bytes@.len());
        assert forall|j: int| i <= j < k implies is_blank(s[j]) by {
            assert(s[j] == before.bytes@[j - i]);
        }
        if k < s.len() {
            assert(s[k] == rest.bytes@[0]);
        }
        lemma_run_end_at(s, i, k, |b: u8| is_blank(b));
        assert(rest.bytes@ =~= s.subrange(k, s.len() as int));
    }
}

/// Whether a field is `-`.
fn dash(d: &[u8]) -> (r: bool)
    ensures
        r == is_dash(d@),
{
    if d.len() == 1 && d[0] == 0x2d {
        assert(d@ =~= seq![0x2du8]);
        true
    } else {
        false
    }
}

/// Reads one line of configuration: the type, path, mode, user, group and
/// age fields, then the argument, each with its span. Fields after the path
/// may be missing at the end of the line, and `-` leaves one out.
#[verifier::rlimit(100)]
#[verifier::spinoff_prover]
pub fn parse_line<'a, 'b>(input: FileSpan<'a, 'b>) -> (r: Result<Line<'b>, ParseError>)
    requires
        input.wf(),
    ensures
        match line_of(input.bytes@) {
            Ok(l) => r matches Ok(line) && line_matches(line, l, input),
            Err(e) => r matches Err(x) && x@ == e,
        },
{
    reveal(line_of);
    let ghost s = input.bytes@;
    if input.bytes.len() > 0 && (input.bytes[0] == 0x20 || input.bytes[0] == 0x09) {
        return Err(ParseError::LeadingWhitespace);
    }
    let mut rest = input.clone();
    assert(rest.bytes@ =~= s.subrange(0, s.len() as int));

    // type
    let f = match next_field(&mut rest, Ghost(input), Ghost(0)) {
        Ok(f) => f,
        Err(e) => {
            return Err(e);
        },
    };
    let ghost end = s.len() - rest.bytes@.len();
    let type_bytes: Vec<u8> = match f.data {
        Some(d) => d,
        None => Vec::new(),
    };
    assert(type_bytes@ == or_empty(opt_bytes(f.data)));
    let (data, base64_decode) = match parse_type(type_bytes.as_slice()) {
        Ok(t) => t,
        Err(e) => {
            return Err(e);
        },
    };
    let line_type = Spanned { data, file: f.file, characters: f.characters };
    skip_to_next_field(&mut rest, Ghost(input), Ghost(end));
    let ghost start = s.len() - rest.bytes@.len();

    // path
    let f = match next_field(&mut rest, Ghost(input), Ghost(start)) {
        Ok(f) => f,
        Err(e) => {
            return Err(e);
        },
    };
    let ghost end = s.len() - rest.bytes@.len();
    let path_bytes: Vec<u8> = match f.data {
        Some(d) => d,
        None => Vec::new(),
    };
    assert(path_bytes@ == or_empty(opt_bytes(f.data)));
    let data = match parse_path(path_bytes) {
        Ok(p) => p,
        Err(e) => {
            return Err(e);
        },
    };
    let path = Spanned { data, file: f.file, characters: f.characters };
    skip_to_next_field(&mut rest, Ghost(input), Ghost(end));
    let ghost start = s.len() - rest.bytes@.len();

    // mode
    let f = match next_field(&mut rest, Ghost(input), Ghost(start)) {
        Ok(f) => f,
        Err(e) => {
            return Err(e);
        },
    };
    let ghost end = s.len() - rest.bytes@.len();
    let data = match f.data {
        None => None,
        Some(d) => if dash(d.as_slice()) {
            None
        } else {
            match parse_mode(d.as_slice()) {
                Ok(m) => Some(m),
                Err(e) => {
                    return Err(e);
                },
            }
        },
    };
    let mode = Spanned { data, file: f.file, characters: f.characters };
    skip_to_next_field(&mut rest, Ghost(input), Ghost(end));
    let ghost start = s.len() - rest.bytes@.len();

    // owner
    let f = match next_field(&mut rest, Ghost(input), Ghost(start)) {
        Ok(f) => f,
        Err(e) => {
            return Err(e);
        },
    };
    let ghost end = s.len() - rest.bytes@.len();
    let data = match f.data {
        None => None,
        Some(d) => if dash(d.as_slice()) {
            None
        } else {
            match parse_user(d) {
                Ok(o) => Some(o),
                Err(e) => {
                    return Err(e);
                },
            }
        },
    };
    let owner = Spanned { data, file: f.file, characters: f.characters };
    skip_to_next_field(&mut rest, Ghost(input), Ghost(end));
    let ghost start = s.len() - rest.bytes@.len();

    // group
    let f = match next_field(&mut rest, Ghost(input), Ghost(start)) {
        Ok(f) => f,
        Err(e) => {
            return Err(e);
        },
    };
    let ghost end = s.len() - rest.bytes@.len();
    let data = match f.data {
        None => None,
        Some(d) => if dash(d.as_slice()) {
            None
        } else {
            match parse_user(d) {
                Ok(o) => Some(o),
                Err(e) => {
                    return Err(e);
                },
            }
        },
    };
    let group = Spanned { data, file: f.file, characters: f.characters };
    skip_to_next_field(&mut rest, Ghost(input), Ghost(end));
    let ghost start = s.len() - rest.bytes@.len();

    // age
    let f = match next_field(&mut rest, Ghost(input), Ghost(start)) {
        Ok(f) => f,
        Err(e) => {
            return Err(e);
        },
    };
    let ghost end = s.len() - rest.bytes@.len();
    let data = match f.data {
        None => None,
        Some(d) => if dash(d.as_slice()) {
            Some(CleanupAge::empty())
        } else {
            match parse_cleanup_age(d.as_slice()) {
                Ok(a) => Some(a),
                Err(e) => {
                    return Err(ParseError::InvalidCleanupAge(e));
                },
            }
        },
    };
    let age = Spanned { data, file: f.file, characters: f.characters };
    skip_to_next_field(&mut rest, Ghost(input), Ghost(end));

    // argument
    let data = match parse_argument(rest.bytes, base64_decode) {
        Ok(a) => a,
        Err(e) => {
            return Err(e);
        },
    };
    let argument = Spanned {
        data,
        file: rest.file,
        characters: rest.char_range.start..rest.char_range.end,
    };
    Ok(Line { line_type, path, mode, owner, group, age, argument })
}

// ---- A whole file ----

pub open spec fn is_not_newline(b: u8) -> bool {
    b != 0x0a
}

/// A line that holds configuration: neither empty nor a comment begun by `#`.
pub open spec fn is_config_line(l: Seq<u8>) -> bool {
    l.len() > 0 && l[0] != 0x23
}

/// The lines of `s` from position `i` on that hold configuration, as the
/// positions where each begins and ends, line breaks left out.
pub open spec fn config_lines(s: Seq<u8>, i: int) -> Seq<(int, int)>
    decreases s.len() - i,
    via config_lines_decreases
{
    if i < 0 || i >= s.len() {
        Seq::empty()
    } else {
        let e = run_end(s, i, |b: u8| is_not_newline(b));
        let here = if is_config_line(s.subrange(i, e)) {
            seq![(i, e)]
        } else {
            Seq::empty()
        };
        if e < s.len() {
            here + config_lines(s, e + 1)
        } else {
            here
        }
    }
}

#[via_fn]
proof fn config_lines_decreases(s: Seq<u8>, i: int) {
    if 0 <= i < s.len() {
        lemma_run_end(s, i, |b: u8| is_not_newline(b));
    }
}

/// The line of `whole` from position `start` to `end`, with its bytes and its
/// characters in the file.
pub open spec fn is_line_of(line: FileSpan, whole: FileSpan, start: int, end: int) -> bool {
    &&& line.bytes@ == whole.bytes@.subrange(start, end)
    &&& line.file == whole.file
    &&& line.char_range.start == whole.char_range.start + start
    &&& line.char_range.end == whole.char_range.start + end
}

/// Reads each line of a configuration file that is neither empty nor a
/// comment begun by `#`, in order; stops at the first line that does not
/// read, giving that line and its error.
pub fn parse_config<'a, 'b>(file: &FileSpan<'a, 'b>) -> (r: Result<
    Vec<Line<'b>>,
    (FileSpan<'a, 'b>, ParseError),
>)
    requires
        file.wf(),
    ensures
        ({
            let kept = config_lines(file.bytes@, 0);
            match r {
                Ok(lines) => lines@.len() == kept.len() && forall|j: int|
                    0 <= j < kept.len() ==> {
                        let (a, b) = #[trigger] kept[j];
                        line_of(file.bytes@.subrange(a, b)) matches Ok(l) && line_matches_at(
                            lines@[j],
                            l,
                            file.file,
                            file.char_range.start + a,
                        )
                    },
                Err((line, e)) => exists|j: int|
                    0 <= j < kept.len() && is_line_of(line, *file, #[trigger] kept[j].0, kept[j].1)
                        && line_of(line.bytes@) == Err::<LineSpec, ParseErrorView>(e@) && forall|
                        k: int,
                    |
                        0 <= k < j ==> line_of(
                            file.bytes@.subrange(#[trigger] kept[k].0, kept[k].1),
                        ) is Ok,
            }
        }),
{
    let ghost s = file.bytes@;
    let ghost base = file.char_range.start as int;
    let mut lines = file.lines();
    let mut config: Vec<Line<'b>> = Vec::new();
    let ghost mut done: Seq<(int, int)> = Seq::empty();
    assert(lines.0.bytes@ =~= s.subrange(0, s.len() as int));
    loop
        invariant
            file.wf(),
            s == file.bytes@,
            base == file.char_range.start,
            lines.0.wf(),
            lines.0.bytes@.len() <= s.len(),
            file.has_suffix(s.len() - lines.0.bytes@.len(), lines.0),
            lines.0.bytes@.len() > 0 ==> (s.len() - lines.0.bytes@.len() == 0 || s[s.len() - lines.0.bytes@.len() - 1] == 0x0a),
            config_lines(s, 0) == done + config_lines(s, s.len() - lines.0.bytes@.len()),
            config@.len() == done.len(),
            forall|j: int|
                0 <= j < done.len() ==> {
                    let (a, b) = #[trigger] done[j];
                    line_of(s.subrange(a, b)) matches Ok(l) && line_matches_at(
                        config@[j],
                        l,
                        file.file,
                        base + a,
                    )
                },
        ensures
            config_lines(s, 0) == done,
            config@.len() == done.len(),
            forall|j: int|
                0 <= j < done.len() ==> {
                    let (a, b) = #[trigger] done[j];
                    line_of(s.subrange(a, b)) matches Ok(l) && line_matches_at(
                        config@[j],
                        l,
                        file.file,
                        base + a,
                    )
                },
        decreases lines.0.bytes@.len(),
    {
        let ghost i = s.len() - lines.0.bytes@.len();
        let ghost before = lines.0;
        let line = match lines.next() {
            Some(line) => line,
            None => {
                assert(config_lines(s, i) =~= Seq::<(int, int)>::empty());
                assert(done + Seq::<(int, int)>::empty() =~= done);
                break;
            },
        };
        let ghost e = i + line.bytes@.len();
        proof {
            assert forall|j: int| i <= j < e implies is_not_newline(s[j]) by {
                assert(s[j] == before.bytes@[j - i]);
                assert(line.bytes@[j - i] == before.bytes@[j - i]);
            }
            if e < s.len() {
                assert(s[e] == before.bytes@[line.bytes@.len() as int]);
            }
            lemma_run_end_at(s, i, e, |b: u8| is_not_newline(b));
            assert(line.bytes@ =~= s.subrange(i, e));
            let here = if is_config_line(s.subrange(i, e)) {
                seq![(i, e)]
            } else {
                Seq::<(int, int)>::empty()
            };
            if e >= s.len() {
                assert(config_lines(s, e + 1) =~= Seq::<(int, int)>::empty());
                assert(here + config_lines(s, e + 1) =~= here);
            }
            assert(config_lines(s, i) == here + config_lines(s, e + 1));
            assert(lines.0.bytes@ =~= s.subrange(s.len() - lines.0.bytes@.len(), s.len() as int));
            if e < s.len() {
                assert(s.len() - lines.0.bytes@.len() == e + 1);
            } else {
                assert(lines.0.bytes@.len() == 0);
            }
            if e < s.len() {
                assert(config_lines(s, e + 1) == config_lines(s, s.len() - lines.0.bytes@.len()));
            }
        }
        let bytes = line.bytes();
        if bytes.len() == 0 || bytes[0] == 0x23 {
            proof {
                assert(done + (Seq::<(int, int)>::empty() + config_lines(s, e + 1)) =~= done
                    + config_lines(s, e + 1));
            }
            continue;
        }
        let parsed = match parse_line(line.clone()) {
            Ok(parsed) => parsed,
            Err(err) => {
                proof {
                    let kept = config_lines(s, 0);
                    assert(kept =~= done + (seq![(i, e)] + config_lines(s, e + 1)));
                    assert(kept[done.len() as int] == (i, e));
                    assert(is_line_of(line, *file, kept[done.len() as int].0, kept[done.len() as int].1));
                    assert forall|k: int| 0 <= k < done.len() implies line_of(
                        s.subrange(#[trigger] kept[k].0, kept[k].1),
                    ) is Ok by {
                        assert(kept[k] == done[k]);
                    }
                }
                return Err((line, err));
            },
        };
        proof {
            assert(done + (seq![(i, e)] + config_lines(s, e + 1)) =~= done.push((i, e))
                + config_lines(s, e + 1));
        }
        config.push(parsed);
        proof {
            let old_done = done;
            done = done.push((i, e));
            assert forall|j: int|
                0 <= j < done.len() implies {
                    let (a, b) = #[trigger] done[j];
                    line_of(s.subrange(a, b)) matches Ok(l) && line_matches_at(
                        config@[j],
                        l,
                        file.file,
                        base + a,
                    )
                } by {
                if j < old_done.len() {
                    assert(done[j] == old_done[j]);
                }
            }
        }
    }
    Ok(config)
}

} // verus!
