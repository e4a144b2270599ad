use std::str::FromStr;

use mini_tmpfiles::config_file::{CleanupAge, Line, LineAction, LineType, Spanned, SpecifierString};
use mini_tmpfiles::duration::Duration;
use mini_tmpfiles::parser::{
    parse_cleanup_age, parse_duration, parse_duration_part, parse_line, CleanupParseError,
    FieldParseError, FileSpan, ParseError,
};

#[test]
fn test_duration_part() {
    assert_eq!(parse_duration_part(&mut b"1s".as_slice()), Ok(Duration::from_secs(1)));
    assert_eq!(parse_duration_part(&mut "1µs".as_bytes()), Ok(Duration::from_nanos(1_000)));
    assert_eq!(
        parse_duration_part(&mut "123456789".as_bytes()),
        Ok(Duration::from_secs(123_456_789))
    );
}

#[test]
fn test_duration() {
    assert_eq!(parse_duration(b"1s1m"), Ok(Duration::from_secs(61)));
    assert_eq!(
        parse_duration("6days23hr59m59sec999ms999µs1000ns".as_bytes()),
        Ok(Duration::from_secs(7 * 24 * 60 * 60))
    );
    assert_eq!(
        parse_cleanup_age(b"1s1m"),
        Ok(CleanupAge {
            age: Duration::from_secs(61),
            ..CleanupAge::empty()
        })
    );
    assert_eq!(
        parse_cleanup_age("6days23hr59m59sec999ms999µs1000ns".as_bytes()),
        Ok(CleanupAge {
            age: Duration::from_secs(7 * 24 * 60 * 60),
            ..CleanupAge::empty()
        })
    );
}

#[test]
fn test_line() {
    let dummy_file: &[u8] = b"";
    assert_eq!(
        parse_line(FileSpan::from_slice(b"L+ /run/gdm/.config/pulse/default.pa - - - - /nix/store/whibfps24g91fx9i63m2wdyl87dfadnn-default.pa", dummy_file)),
        Ok(Line {
            line_type: Spanned::new(LineType { action: LineAction::CreateSymlink, recreate: true, boot: false, noerror: false, force: false }, dummy_file, 0..2 ),
            path: Spanned::new(SpecifierString(b"/run/gdm/.config/pulse/default.pa".to_vec(), [].into()), dummy_file, 3..36),
            mode: Spanned::new(None, dummy_file, 37..38),
            owner: Spanned::new(None, dummy_file, 39..40),
            group: Spanned::new(None, dummy_file, 41..42),
            age: Spanned::new(Some(CleanupAge::empty()), dummy_file, 43..44),
            argument: Spanned::new(Some(b"/nix/store/whibfps24g91fx9i63m2wdyl87dfadnn-default.pa".to_vec()), dummy_file, 45..99)
        })
    );
}

#[test]
fn test_empty_line() {
    assert_eq!(
        parse_line(FileSpan::from_slice(b"", b"")),
        Err(ParseError::EmptyParseType)
    )
}
#[test]
fn test_unfinished_quote() {
    assert_eq!(
        parse_line(FileSpan::from_slice(b"\"", b"")),
        Err(FieldParseError::UnfinishedQuote.into())
    )
}

#[test]
fn test_illegal_parse_type() {
    assert_eq!(
        parse_line(FileSpan::from_slice(b"B", b"")),
        Err(ParseError::IllegalParseType(b'B'))
    )
}
#[test]
fn test_tab() {
    assert_eq!(
        parse_line(FileSpan::from_slice(b"\t", b"")),
        Err(ParseError::LeadingWhitespace)
    )
}
#[test]
fn test_junk_after_quotes() {
    assert_eq!(
        parse_line(FileSpan::from_slice(b"\"\"A", b"")),
        Err(FieldParseError::JunkAfterQuotes.into())
    )
}
#[test]
fn test_empty_parse_type() {
    assert_eq!(
        parse_line(FileSpan::from_slice(b"\"\"", b"")),
        Err(ParseError::EmptyParseType)
    )
}
#[test]
fn test_trailing_backslash() {
    assert_eq!(
        parse_line(FileSpan::from_slice(b"\\", b"")),
        Err(FieldParseError::TrailingBackslash.into())
    )
}
#[test]
fn test_unrecognized_escape() {
    assert_eq!(
        parse_line(FileSpan::from_slice(b"\\z", b"")),
        Err(FieldParseError::UnrecognizedEscape(b'z').into())
    )
}
#[test]
fn test_invalid_type_combination() {
    assert_eq!(
        parse_line(FileSpan::from_slice(b"Z+", b"")),
        Err(ParseError::InvalidTypeCombination(b'Z', b'+'))
    )
}
#[test]
fn test_invalid_type_modifier() {
    assert_eq!(
        parse_line(FileSpan::from_slice(b"Z\0", b"")),
        Err(ParseError::InvalidTypeModifier(b'\0'))
    )
}
#[test]
fn test_invalid_mode_string() {
    assert_eq!(
        parse_line(FileSpan::from_slice(b"z /z -x", b"")),
        Err(ParseError::InvalidMode)
    )
}
#[test]
fn test_duplicate_type_modifier() {
    assert_eq!(
        parse_line(FileSpan::from_slice(b"A!!", b"")),
        Err(ParseError::DuplicateTypeModifier(b'!'))
    )
}
#[test]
fn test_unsupported_octal_null() {
    assert_eq!(
        parse_line(FileSpan::from_slice(b"\\0", b"")),
        Err(FieldParseError::UnsupportedOctalEscape.into())
    )
}
#[test]
fn test_invalid_cleanup_age() {
    assert_eq!(
        parse_line(FileSpan::from_slice(b"Z /A - - - f", b"")),
        Err(ParseError::InvalidCleanupAge(
            CleanupParseError::InvalidDurationInt(u64::from_str("").unwrap_err())
        ))
    )
}
#[test]
fn test_unfinished_hex_escape() {
    assert_eq!(
        parse_line(FileSpan::from_slice(b"\\x", b"")),
        Err(FieldParseError::UnfinishedHexEscape.into())
    )
}
#[test]
fn test_invalid_username() {
    assert_eq!(
        parse_line(FileSpan::from_slice(b"Z /A - \\xFF", b"")),
        Err(ParseError::InvalidUsername)
    )
}
#[test]
fn test_invalid_hex_escape() {
    assert_eq!(
        parse_line(FileSpan::from_slice(b"\\xgg", b"")),
        Err(FieldParseError::InvalidHexEscape.into())
    )
}
#[test]
fn test_null_in_path() {
    assert_eq!(
        parse_line(FileSpan::from_slice(b"z /\\x00", b"")),
        Err(ParseError::NullInPath)
    )
}
#[test]
fn test_invalid_cleanup_specifier() {
    assert_eq!(
        parse_line(FileSpan::from_slice(b"Z / -	- - \0:", b"")),
        Err(ParseError::InvalidCleanupAge(
            CleanupParseError::InvalidCleanupSpecifier(b'\0')
        ))
    )
}
#[test]
fn test_duplicate_cleanup_specifier() {
    assert_eq!(
        parse_line(FileSpan::from_slice(b"Z / -	- - AA:", b"")),
        Err(ParseError::InvalidCleanupAge(
            CleanupParseError::DuplicateCleanupSpecifier(b'A')
        ))
    )
}
#[test]
fn test_malformed_cleanup() {
    assert_eq!(
        parse_line(FileSpan::from_slice(b"Z / -	- - AA::", b"")),
        Err(ParseError::InvalidCleanupAge(CleanupParseError::Malformed(
            b"AA::".as_slice().into()
        )))
    )
}
#[test]
fn test_overflowed_cleanup_duration() {
    assert_eq!(
        parse_line(FileSpan::from_slice(
            b"Z	/ - - - 1s9999999999999month",
            b""
        )),
        Err(ParseError::InvalidCleanupAge(
            CleanupParseError::OverflowedDuration(b"9999999999999month".as_slice().into())
        ))
    )
}
#[test]
fn test_overflowed_cleanup_duration_sum() {
    assert_eq!(
        parse_line(FileSpan::from_slice(
            b"Z	/	-	)	-	9999999199999999915s9999999199999999198s9999",
            b""
        )),
        Err(ParseError::InvalidCleanupAge(
            CleanupParseError::OverflowedDuration(
                b"9999999199999999915s9999999199999999198s9999"
                    .as_slice()
                    .into()
            )
        ))
    )
}
#[test]
fn test_empty_cleanup_specifiers() {
    assert_eq!(
        parse_line(FileSpan::from_slice(b"Z	/ - - - :1s", b"")),
        Err(ParseError::InvalidCleanupAge(
            CleanupParseError::EmptyCleanupSpecifierList
        ))
    )
}
#[test]
fn test_nonabsolute_path() {
    assert_eq!(
        parse_line(FileSpan::from_slice(b"Z	AAA", b"")),
        Err(ParseError::NonabsolutePath)
    )
}
#[test]
fn test_empty_path() {
    assert_eq!(
        parse_line(FileSpan::from_slice(b"Z	\"\"", b"")),
        Err(ParseError::EmptyPath)
    )
}
#[test]
fn test_incomplete_specifier_path() {
    assert_eq!(
        parse_line(FileSpan::from_slice(b"Z	%", b"")),
        Err(ParseError::IncompleteSpecifier)
    )
}
#[test]
fn test_path_leading_specifiers() {
    let passes = b"ChLStTV";
    let fails = b"aAbBgGHmMouUvwW%";
    let path: &[u8] = b"";
    for pass in passes {
        let mut slice = b"Z %".to_vec();
        slice.push(*pass);
        assert_ne!(
            parse_line(FileSpan::from_slice(&slice, path)),
            Err(ParseError::NonabsolutePath)
        )
    }
    for fail in fails {
        let mut slice = b"Z %".to_vec();
        slice.push(*fail);
        assert_eq!(
            parse_line(FileSpan::from_slice(b"Z	%b", path)),
            Err(ParseError::NonabsolutePath)
        )
    }
}
#[test]
fn test_omitted_args() {
    let file: &[u8] = b"";
    assert_eq!(
        parse_line(FileSpan::from_slice(b"R! /etc/group.lock", file)),
        Ok(Line {
            line_type: Spanned::new(
                LineType {
                    action: LineAction::RemoveRecursive,
                    recreate: false,
                    boot: true,
                    noerror: false,
                    force: false,
                },
                file,
                0..2
            ),
            path: Spanned::new(
                SpecifierString(b"/etc/group.lock".to_vec(), [].into()),
                file,
                3..18
            ),
            mode: Spanned::new(None, file, 18..18),
            owner: Spanned::new(None, file, 18..18),
            group: Spanned::new(None, file, 18..18),
            age: Spanned::new(None, file, 18..18),
            argument: Spanned::new(None, file, 18..18)
        })
    )
}
