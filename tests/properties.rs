use std::str::FromStr;

use mini_tmpfiles::config_file::{
    CleanupAge, FileOwner, Line, LineAction, LineType, Mode, ModeBehavior, Spanned, Specifier,
    SpecifierString,
};
use mini_tmpfiles::duration::Duration;
use mini_tmpfiles::parser::{
    parse_cleanup_age, parse_cleanup_age_by, parse_config, parse_duration, parse_duration_part,
    parse_line, parse_mode, parse_path, parse_type, parse_user, take_field,
    take_inline_whitespace, CleanupParseError, FieldParseError, FileSpan, ParseError,
};

const WEEK_SECS: u64 = 7 * 24 * 60 * 60;

fn line(bytes: &[u8]) -> Result<Line<'static>, ParseError> {
    parse_line(FileSpan::from_slice(bytes, b"test.conf"))
}

#[test]
fn mode_reads_three_or_four_octal_digits() {
    assert_eq!(
        parse_mode(b"755"),
        Ok(Mode { value: 0o755, mode_behavior: ModeBehavior::Default })
    );
    assert_eq!(
        parse_mode(b"0644"),
        Ok(Mode { value: 0o644, mode_behavior: ModeBehavior::Default })
    );
    assert_eq!(
        parse_mode(b"7777"),
        Ok(Mode { value: 0o7777, mode_behavior: ModeBehavior::Default })
    );
    assert_eq!(
        parse_mode(b":755"),
        Ok(Mode { value: 0o755, mode_behavior: ModeBehavior::KeepExisting })
    );
    assert_eq!(
        parse_mode(b"~0700"),
        Ok(Mode { value: 0o700, mode_behavior: ModeBehavior::Masked })
    );
}

#[test]
fn mode_refuses_other_lengths_and_digits() {
    assert_eq!(parse_mode(b"75"), Err(ParseError::InvalidMode));
    assert_eq!(parse_mode(b"07555"), Err(ParseError::InvalidMode));
    assert_eq!(parse_mode(b""), Err(ParseError::InvalidMode));
    assert_eq!(parse_mode(b"789"), Err(ParseError::InvalidMode));
    assert_eq!(parse_mode(b":75"), Err(ParseError::InvalidMode));
    assert_eq!(parse_mode(b"+777"), Err(ParseError::InvalidMode));
    assert_eq!(parse_mode(b"~+77"), Err(ParseError::InvalidMode));
    assert_eq!(parse_mode(b"7+77"), Err(ParseError::InvalidMode));
}

#[test]
fn duration_parts_commute() {
    assert_eq!(parse_duration(b"1s1m"), Ok(Duration::from_secs(61)));
    assert_eq!(parse_duration(b"1m1s"), Ok(Duration::from_secs(61)));
    assert_eq!(parse_duration(b"2h30min"), parse_duration(b"30min2h"));
    assert_eq!(parse_duration(b"2h30min"), Ok(Duration::from_secs(9000)));
}

#[test]
fn multi_part_durations_join_in_either_order() {
    let a = parse_duration(b"1h30m").unwrap();
    let b = parse_duration(b"2d5s").unwrap();
    assert_eq!(a, Duration::from_secs(5_400));
    assert_eq!(b, Duration::from_secs(172_805));
    assert_eq!(parse_duration(b"1h30m2d5s"), Ok(Duration::from_secs(178_205)));
    assert_eq!(parse_duration(b"2d5s1h30m"), Ok(Duration::from_secs(178_205)));
    assert_eq!(parse_duration(b"30m2d1h5s"), Ok(Duration::from_secs(178_205)));
}

#[test]
fn multi_part_sum_past_the_largest_duration_overflows() {
    let input = b"10000000000000000000s5000000000000000000s3446744073709551616s";
    assert_eq!(
        parse_duration(input),
        Err(CleanupParseError::OverflowedDuration(input.to_vec()))
    );
    assert_eq!(
        parse_duration(b"10000000000000000000s5000000000000000000s3446744073709551615s"),
        Ok(Duration::from_secs(u64::MAX))
    );
}

#[test]
fn duration_units_add_up_to_a_week() {
    assert_eq!(
        parse_duration("6days23hr59m59sec999ms999µs1000ns".as_bytes()),
        Ok(Duration::from_secs(WEEK_SECS))
    );
    assert_eq!(parse_duration(b"1w"), Ok(Duration::from_secs(WEEK_SECS)));
    assert_eq!(parse_duration(b"1weeks"), Ok(Duration::from_secs(WEEK_SECS)));
}

#[test]
fn duration_unit_values() {
    assert_eq!(parse_duration(b"5"), Ok(Duration::from_secs(5)));
    assert_eq!(parse_duration(b"1M"), Ok(Duration::from_secs(2_629_800)));
    assert_eq!(parse_duration(b"1month"), Ok(Duration::from_secs(2_629_800)));
    assert_eq!(parse_duration(b"1y"), Ok(Duration::from_secs(31_557_600)));
    assert_eq!(parse_duration(b"3us"), Ok(Duration::from_nanos(3_000)));
    assert_eq!(parse_duration(b"7msec"), Ok(Duration::from_nanos(7_000_000)));
    assert_eq!(parse_duration(b"2d"), Ok(Duration::from_secs(172_800)));
}

#[test]
fn duration_part_takes_only_its_own_bytes() {
    let mut input: &[u8] = b"5m3s";
    assert_eq!(parse_duration_part(&mut input), Ok(Duration::from_secs(300)));
    assert_eq!(input, b"3s");
}

#[test]
fn overflowing_part_is_refused() {
    assert_eq!(
        parse_duration(b"9999999999999month"),
        Err(CleanupParseError::OverflowedDuration(b"9999999999999month".to_vec()))
    );
    assert_eq!(
        parse_duration(b"1s9999999999999month"),
        Err(CleanupParseError::OverflowedDuration(b"9999999999999month".to_vec()))
    );
}

#[test]
fn largest_duration_is_exact_and_one_more_overflows() {
    let largest = parse_duration(b"18446744073709551615s999999999ns").unwrap();
    assert_eq!(largest.nanos, 18_446_744_073_709_551_615_999_999_999);
    assert_eq!(
        parse_duration(b"18446744073709551615s1000000000ns"),
        Err(CleanupParseError::OverflowedDuration(
            b"18446744073709551615s1000000000ns".to_vec()
        ))
    );
}

#[test]
fn count_too_large_for_u64_is_an_integer_error() {
    assert_eq!(
        parse_duration(b"18446744073709551616s"),
        Err(CleanupParseError::InvalidDurationInt(
            u64::from_str("18446744073709551616").unwrap_err()
        ))
    );
}

#[test]
fn unknown_unit_is_named() {
    assert_eq!(
        parse_duration(b"5parsecs"),
        Err(CleanupParseError::InvalidDurationKeyword(b"parsecs".to_vec()))
    );
}

#[test]
fn take_field_at_end_of_input() {
    let mut span = FileSpan::from_slice(b"", b"f");
    let field = take_field(&mut span).unwrap();
    assert_eq!(field, Spanned::new(None, b"f", 0..0));
}

#[test]
fn take_field_names_each_failure() {
    let cases: [(&[u8], FieldParseError); 9] = [
        (b"\"abc", FieldParseError::UnfinishedQuote),
        (b"'", FieldParseError::UnfinishedQuote),
        (b"ab\\", FieldParseError::TrailingBackslash),
        (b"\\x4", FieldParseError::UnfinishedHexEscape),
        (b"\\xzz", FieldParseError::InvalidHexEscape),
        (b"\\7", FieldParseError::UnsupportedOctalEscape),
        (b"a\"b", FieldParseError::QuoteInUnquotedField),
        (b"\"a\"b", FieldParseError::JunkAfterQuotes),
        (b"\\q", FieldParseError::UnrecognizedEscape(b'q')),
    ];
    for (input, error) in cases {
        let mut span = FileSpan::from_slice(input, b"f");
        assert_eq!(take_field(&mut span), Err(error));
    }
}

#[test]
fn take_field_decodes_escapes_and_quotes() {
    let mut span = FileSpan::from_slice(b"\"a b\\n\\x41\\\\\"  rest", b"f");
    let field = take_field(&mut span).unwrap();
    assert_eq!(field, Spanned::new(Some(b"a b\nA\\".to_vec()), b"f", 0..13));
    assert_eq!(span.bytes(), b"  rest");
    take_inline_whitespace(&mut span);
    assert_eq!(span.bytes(), b"rest");
    assert_eq!(span.char_range, 15..19);
    let field = take_field(&mut span).unwrap();
    assert_eq!(field, Spanned::new(Some(b"rest".to_vec()), b"f", 15..19));
}

#[test]
fn symlink_line_with_every_field() {
    let file: &[u8] = b"test.conf";
    assert_eq!(
        line(b"L+ /a/b - - - - /c"),
        Ok(Line {
            line_type: Spanned::new(
                LineType {
                    action: LineAction::CreateSymlink,
                    recreate: true,
                    boot: false,
                    noerror: false,
                    force: false,
                },
                file,
                0..2
            ),
            path: Spanned::new(SpecifierString(b"/a/b".to_vec(), vec![]), file, 3..7),
            mode: Spanned::new(None, file, 8..9),
            owner: Spanned::new(None, file, 10..11),
            group: Spanned::new(None, file, 12..13),
            age: Spanned::new(Some(CleanupAge::empty()), file, 14..15),
            argument: Spanned::new(Some(b"/c".to_vec()), file, 16..18),
        })
    );
}

#[test]
fn line_without_trailing_fields() {
    let file: &[u8] = b"test.conf";
    let parsed = line(b"R! /etc/group.lock").unwrap();
    assert_eq!(parsed.line_type.data.action, LineAction::RemoveRecursive);
    assert!(parsed.line_type.data.boot);
    assert_eq!(parsed.mode, Spanned::new(None, file, 18..18));
    assert_eq!(parsed.owner, Spanned::new(None, file, 18..18));
    assert_eq!(parsed.group, Spanned::new(None, file, 18..18));
    assert_eq!(parsed.age, Spanned::new(None, file, 18..18));
    assert_eq!(parsed.argument, Spanned::new(None, file, 18..18));
}

#[test]
fn line_with_all_settings() {
    let parsed = line(b"d /run/x ~0750 root 42 ~aM:10d").unwrap();
    assert_eq!(
        parsed.mode.data,
        Some(Mode { value: 0o750, mode_behavior: ModeBehavior::Masked })
    );
    assert_eq!(parsed.owner.data, Some(FileOwner::Name("root".to_string())));
    assert_eq!(parsed.group.data, Some(FileOwner::Id(42)));
    assert_eq!(
        parsed.age.data,
        Some(CleanupAge {
            age: Duration::from_secs(864_000),
            second_level: true,
            consider_atime: true,
            consider_mtime_dir: true,
            ..CleanupAge::default()
        })
    );
    assert_eq!(parsed.argument.data, None);
}

#[test]
fn bare_specifier_paths() {
    assert_eq!(line(b"Z %b"), Err(ParseError::NonabsolutePath));
    assert_eq!(line(b"Z %%"), Err(ParseError::NonabsolutePath));
    assert_eq!(
        parse_path(b"%h".to_vec()),
        Ok(SpecifierString(vec![], vec![(Specifier::UserHome, vec![])]))
    );
    assert_eq!(
        parse_path(b"%t/run%u.x".to_vec()),
        Ok(SpecifierString(
            vec![],
            vec![(Specifier::TempDir, b"/run".to_vec()), (Specifier::Username, b".x".to_vec())]
        ))
    );
}

#[test]
fn repeated_modifier_and_age_letter() {
    assert_eq!(line(b"A!!"), Err(ParseError::DuplicateTypeModifier(b'!')));
    assert_eq!(parse_type(b"F+"), Err(ParseError::DuplicateTypeModifier(b'+')));
    assert_eq!(
        parse_cleanup_age(b"AA:1s"),
        Err(CleanupParseError::DuplicateCleanupSpecifier(b'A'))
    );
    assert_eq!(
        parse_cleanup_age_by(b"~mm"),
        Err(CleanupParseError::DuplicateCleanupSpecifier(b'm'))
    );
}

#[test]
fn type_field_settings() {
    assert_eq!(
        parse_type(b"F-=!~"),
        Ok((
            LineType {
                action: LineAction::CreateFile,
                recreate: true,
                boot: true,
                noerror: true,
                force: true,
            },
            true
        ))
    );
    assert_eq!(parse_type(b"f^"), Err(ParseError::IDKWhatAServiceCredentialIs));
    assert_eq!(parse_type(b"d+"), Err(ParseError::InvalidTypeCombination(b'd', b'+')));
    assert_eq!(parse_type(b"q"), Ok((LineType {
        action: LineAction::CreateAndCleanUpDirectory,
        recreate: false,
        boot: false,
        noerror: false,
        force: false,
    }, false)));
}

#[test]
fn every_line_error() {
    assert_eq!(line(b" f /a"), Err(ParseError::LeadingWhitespace));
    assert_eq!(line(b"y /a"), Err(ParseError::IllegalParseType(b'y')));
    assert_eq!(line(b"f? /a"), Err(ParseError::InvalidTypeModifier(b'?')));
    assert_eq!(line(b"f /a 8888"), Err(ParseError::InvalidMode));
    assert_eq!(line(b"f /a - \\xff"), Err(ParseError::InvalidUsername));
    assert_eq!(line(b"f /a\\x00b"), Err(ParseError::NullInPath));
    assert_eq!(line(b"f /a%\\x00"), Err(ParseError::InvalidSpecifier(0)));
    assert_eq!(line(b"f /a%q"), Err(ParseError::InvalidSpecifier(b'q')));
    assert_eq!(line(b"f /a%"), Err(ParseError::IncompleteSpecifier));
    assert_eq!(line(b"f"), Err(ParseError::EmptyPath));
    assert_eq!(line(b"f a"), Err(ParseError::NonabsolutePath));
    assert_eq!(line(b"f \"/a"), Err(ParseError::Field(FieldParseError::UnfinishedQuote)));
    assert_eq!(
        line(b"f /a - - - 1x"),
        Err(ParseError::InvalidCleanupAge(CleanupParseError::InvalidDurationKeyword(
            b"x".to_vec()
        )))
    );
    assert!(matches!(line(b"f~ /a - - - - !!"), Err(ParseError::Base64Decode(_))));
}

#[test]
fn base64_argument_is_decoded() {
    let parsed = line(b"f~ /a - - - - aGVsbG8=").unwrap();
    assert_eq!(parsed.argument.data, Some(b"hello".to_vec()));
    let plain = line(b"f /a - - - - aGVsbG8=").unwrap();
    assert_eq!(plain.argument.data, Some(b"aGVsbG8=".to_vec()));
}

#[test]
fn user_names_and_ids() {
    assert_eq!(parse_user(b"root".to_vec()), Ok(FileOwner::Name("root".to_string())));
    assert_eq!(parse_user(b"1000".to_vec()), Ok(FileOwner::Id(1000)));
    assert_eq!(parse_user(b"4294967295".to_vec()), Ok(FileOwner::Id(u32::MAX)));
    assert_eq!(
        parse_user(b"4294967296".to_vec()),
        Ok(FileOwner::Name("4294967296".to_string()))
    );
    assert_eq!(parse_user("jos\u{e9}".as_bytes().to_vec()), Ok(FileOwner::Name("jos\u{e9}".to_string())));
    assert_eq!(parse_user(vec![0xff]), Err(ParseError::InvalidUsername));
}

#[test]
fn cleanup_age_forms() {
    assert_eq!(
        parse_cleanup_age(b"1h"),
        Ok(CleanupAge { age: Duration::from_secs(3600), ..CleanupAge::empty() })
    );
    assert_eq!(parse_cleanup_age(b":1s"), Err(CleanupParseError::EmptyCleanupSpecifierList));
    assert_eq!(parse_cleanup_age(b"~:1s"), Err(CleanupParseError::EmptyCleanupSpecifierList));
    assert_eq!(
        parse_cleanup_age(b"a:b:1s"),
        Err(CleanupParseError::Malformed(b"a:b:1s".to_vec()))
    );
    assert_eq!(
        parse_cleanup_age(b"x:1s"),
        Err(CleanupParseError::InvalidCleanupSpecifier(b'x'))
    );
    assert_eq!(
        parse_cleanup_age(b"~C:0"),
        Ok(CleanupAge {
            second_level: true,
            consider_ctime_dir: true,
            ..CleanupAge::default()
        })
    );
}

#[test]
fn empty_cleanup_age_settings() {
    let empty = CleanupAge::empty();
    assert_eq!(empty.age, Duration::from_secs(0));
    assert!(!empty.second_level);
    assert!(empty.consider_atime && empty.consider_atime_dir);
    assert!(empty.consider_btime && empty.consider_btime_dir);
    assert!(empty.consider_ctime && !empty.consider_ctime_dir);
    assert!(empty.consider_mtime && empty.consider_mtime_dir);
}

#[test]
fn config_file_skips_comments_and_blank_lines() {
    let text = b"# comment\n\nL+ /a - - - - /b\nr /c\n";
    let span = FileSpan::from_slice(text, b"x.conf");
    let lines = parse_config(&span).unwrap();
    assert_eq!(lines.len(), 2);
    assert_eq!(lines[0].line_type.data.action, LineAction::CreateSymlink);
    assert_eq!(lines[0].path.characters, 14..16);
    assert_eq!(lines[1].line_type.data.action, LineAction::Remove);
    assert_eq!(lines[1].path, Spanned::new(SpecifierString(b"/c".to_vec(), vec![]), b"x.conf", 30..32));
}

#[test]
fn config_file_stops_at_a_bad_line() {
    let text = b"r /a\nB /b\nr /c";
    let span = FileSpan::from_slice(text, b"x.conf");
    let (bad, error) = parse_config(&span).unwrap_err();
    assert_eq!(bad.bytes(), b"B /b");
    assert_eq!(bad.char_range, 5..9);
    assert_eq!(error, ParseError::IllegalParseType(b'B'));
}

#[test]
fn lines_are_split_at_line_breaks() {
    let span = FileSpan::from_slice(b"a\n\nbc\n", b"f");
    let mut lines = span.lines();
    let first = lines.next().unwrap();
    assert_eq!((first.bytes(), first.char_range), (b"a".as_slice(), 0..1));
    let second = lines.next().unwrap();
    assert_eq!((second.bytes(), second.char_range), (b"".as_slice(), 2..2));
    let third = lines.next().unwrap();
    assert_eq!((third.bytes(), third.char_range), (b"bc".as_slice(), 3..5));
    assert!(lines.next().is_none());
}

#[test]
fn specifier_letters() {
    assert_eq!(Specifier::parse(b'a'), Some(Specifier::Architecture));
    assert_eq!(Specifier::parse(b'T'), Some(Specifier::RuntimeDir));
    assert_eq!(Specifier::parse(b't'), Some(Specifier::TempDir));
    assert_eq!(Specifier::parse(b'%'), Some(Specifier::PercentSign));
    assert_eq!(Specifier::parse(b'z'), None);
}

#[test]
fn spanned_keeps_its_span() {
    let s = Spanned::new((1u8, "x"), b"f".as_slice(), 3..5);
    let (a, b) = s.unzip();
    assert_eq!(a, Spanned::new(1u8, b"f".as_slice(), 3..5));
    assert_eq!(b, Spanned::new("x", b"f".as_slice(), 3..5));
    assert_eq!(a.map(|v| v + 1), Spanned::new(2u8, b"f".as_slice(), 3..5));
    let o = Spanned::new(Some(2u8), b"f".as_slice(), 0..1);
    assert_eq!(o.opt_map(|v| v * 3), Spanned::new(Some(6u8), b"f".as_slice(), 0..1));
    let o = Spanned::new(Some(2u8), b"f".as_slice(), 0..1);
    assert_eq!(o.try_then(|_| Err::<Option<u8>, &str>("no")), Err("no"));
    let n: Spanned<'_, Option<u8>> = Spanned::new(None, b"f".as_slice(), 0..1);
    assert_eq!(n.try_opt_map(|v| Ok::<u8, ()>(v)), Ok(Spanned::new(None, b"f".as_slice(), 0..1)));
    let v = Spanned::new(Some(vec![1u8, 2]), b"f".as_slice(), 0..1);
    assert_eq!(v.as_opt_deref().data, Some([1u8, 2].as_slice()));
}
