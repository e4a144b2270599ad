//! Splitting a line into fields: quoting and backslash escapes.

use vstd::prelude::*;

use crate::config_file::Spanned;
use crate::span::FileSpan;

verus! {

#[derive(Debug, PartialEq, Eq, Structural, Copy, Clone)]
pub enum FieldParseError {
    UnrecognizedEscape(u8),
    TrailingBackslash,
    UnfinishedHexEscape,
    UnsupportedOctalEscape,
    QuoteInUnquotedField,
    InvalidHexEscape,
    JunkAfterQuotes,
    UnfinishedQuote,
}

/// A space or a tab.
pub open spec fn is_blank(b: u8) -> bool {
    b == 0x20 || b == 0x09
}

/// A single or a double quote.
pub open spec fn is_quote(b: u8) -> bool {
    b == 0x27 || b == 0x22
}

pub open spec fn is_hex_digit(b: u8) -> bool {
    (0x30 <= b <= 0x39) || (0x41 <= b <= 0x46) || (0x61 <= b <= 0x66)
}

pub open spec fn hex_digit_value(b: u8) -> nat {
    if 0x30 <= b <= 0x39 {
        (b - 0x30) as nat
    } else if 0x41 <= b <= 0x46 {
        (b - 0x41 + 10) as nat
    } else {
        (b - 0x61 + 10) as nat
    }
}

/// The byte that the escape `\` `e` stands for, where `e` is one of the
/// single-character escapes.
pub open spec fn simple_escape(e: u8) -> Option<u8> {
    if e == 0x6e {
        Some(0x0au8)
    } else if e == 0x72 {
        Some(0x0du8)
    } else if e == 0x74 {
        Some(0x09u8)
    } else if e == 0x27 || e == 0x22 || e == 0x5c {
        Some(e)
    } else {
        None
    }
}

/// Puts `b` in front of the decoded bytes of a successful scan.
pub open spec fn prepend(
    b: Seq<u8>,
    r: Result<(Seq<u8>, int), FieldParseError>,
) -> Result<(Seq<u8>, int), FieldParseError> {
    match r {
        Ok((d, end)) => Ok((b + d, end)),
        Err(e) => Err(e),
    }
}

/// Reads the body of a field from position `i` of `s`, inside the quote
/// `quote` if there is one: the decoded bytes and the position just past the
/// field (past its closing quote, before any blank that follows).
pub open spec fn scan_field(s: Seq<u8>, i: int, quote: Option<u8>) -> Result<
    (Seq<u8>, int),
    FieldParseError,
>
    decreases s.len() - i,
{
    if i < 0 || i >= s.len() {
        if quote is None {
            Ok((Seq::empty(), i))
        } else {
            Err(FieldParseError::UnfinishedQuote)
        }
    } else {
        let c = s[i];
        if quote == Some(c) {
            if i + 1 < s.len() && !is_blank(s[i + 1]) {
                Err(FieldParseError::JunkAfterQuotes)
            } else {
                Ok((Seq::empty(), i + 1))
            }
        } else if quote is None && is_blank(c) {
            Ok((Seq::empty(), i))
        } else if quote is None && is_quote(c) {
            Err(FieldParseError::QuoteInUnquotedField)
        } else if c == 0x5c {
            if i + 1 >= s.len() {
                Err(FieldParseError::TrailingBackslash)
            } else {
                let e = s[i + 1];
                if e == 0x78 {
                    if i + 4 > s.len() {
                        Err(FieldParseError::UnfinishedHexEscape)
                    } else if !is_hex_digit(s[i + 2]) || !is_hex_digit(s[i + 3]) {
                        Err(FieldParseError::InvalidHexEscape)
                    } else {
                        let v = (hex_digit_value(s[i + 2]) * 16 + hex_digit_value(s[i + 3])) as u8;
                        prepend(seq![v], scan_field(s, i + 4, quote))
                    }
                } else if 0x30 <= e <= 0x37 {
                    Err(FieldParseError::UnsupportedOctalEscape)
                } else if let Some(d) = simple_escape(e) {
                    prepend(seq![d], scan_field(s, i + 2, quote))
                } else {
                    Err(FieldParseError::UnrecognizedEscape(e))
                }
            }
        } else {
            prepend(seq![c], scan_field(s, i + 1, quote))
        }
    }
}

/// The field at the start of `s`: `None` when `s` is empty, else its
/// decoded bytes and how many bytes of `s` it takes.
pub open spec fn field_of(s: Seq<u8>) -> Result<Option<(Seq<u8>, int)>, FieldParseError> {
    if s.len() == 0 {
        Ok(None)
    } else {
        let r = if is_quote(s[0]) {
            scan_field(s, 1, Some(s[0]))
        } else {
            scan_field(s, 0, None)
        };
        match r {
            Ok(p) => Ok(Some(p)),
            Err(e) => Err(e),
        }
    }
}

/// A field ends inside the input, at or after where it was begun.
pub proof fn lemma_scan_field_end(s: Seq<u8>, i: int, quote: Option<u8>)
    requires
        0 <= i,
    ensures
        scan_field(s, i, quote) matches Ok((d, end)) ==> i <= end <= s.len() || (i > s.len()
            && end == i),
    decreases s.len() - i,
{
    if i < s.len() {
        let c = s[i];
        if quote == Some(c) || (quote is None && is_blank(c)) || (quote is None && is_quote(c)) {
        } else if c == 0x5c {
            if i + 1 < s.len() {
                let e = s[i + 1];
                if e == 0x78 {
                    if i + 4 <= s.len() {
                        lemma_scan_field_end(s, i + 4, quote);
                    }
                } else {
                    lemma_scan_field_end(s, i + 2, quote);
                }
            }
        } else {
            lemma_scan_field_end(s, i + 1, quote);
        }
    }
}

/// A field takes no more bytes than the input holds.
pub proof fn lemma_field_of_end(s: Seq<u8>)
    ensures
        field_of(s) matches Ok(Some((d, n))) ==> 0 <= n <= s.len(),
{
    if s.len() > 0 {
        if is_quote(s[0]) {
            lemma_scan_field_end(s, 1, Some(s[0]));
        } else {
            lemma_scan_field_end(s, 0, None);
        }
    }
}

fn hex_digit(b: u8) -> (r: Option<u8>)
    ensures
        r is Some <==> is_hex_digit(b),
        r matches Some(v) ==> v == hex_digit_value(b),
{
    if 0x30 <= b && b <= 0x39 {
        Some(b - 0x30)
    } else if 0x41 <= b && b <= 0x46 {
        Some(b - 0x41 + 10)
    } else if 0x61 <= b && b <= 0x66 {
        Some(b - 0x61 + 10)
    } else {
        None
    }
}

/// Takes one field off the front of `input`, quoted or not, decoding its
/// escapes. The data is `None` only when `input` is empty.
pub fn take_field<'a, 'b>(input: &mut FileSpan<'a, 'b>) -> (r: Result<
    Spanned<'b, Option<Vec<u8>>>,
    FieldParseError,
>)
    requires
        old(input).wf(),
    ensures
        final(input).wf(),
        match field_of(old(input).bytes@) {
            Err(e) => r == Err::<Spanned<'b, Option<Vec<u8>>>, FieldParseError>(e)
                && *final(input) == *old(input),
            Ok(None) => r matches Ok(f) && f.data is None && f.file == old(input).file
                && f.characters == old(input).char_range && *final(input) == *old(input),
            Ok(Some((d, end))) => r matches Ok(f) && f.data matches Some(v) && v@ == d
                && f.file == old(input).file && f.characters.start == old(input).char_range.start
                && f.characters.end == old(input).char_range.start + end
                && old(input).has_suffix(end, *final(input)),
        },
{
    let ghost s = input.bytes@;
    let mut cursor = input.cursor();
    let quotation: Option<u8> = match cursor.peek() {
        Some(q) => {
            if q == 0x27 || q == 0x22 {
                cursor.advance();
                Some(q)
            } else {
                None
            }
        },
        None => {
            return Ok(
                Spanned {
                    data: None,
                    file: input.file,
                    characters: input.char_range.start..input.char_range.end,
                },
            );
        },
    };
    let ghost start = cursor.cursor as int;
    let mut field: Vec<u8> = Vec::new();
    loop
        invariant_except_break
            scan_field(s, start, quotation) == prepend(
                field@,
                scan_field(s, cursor.cursor as int, quotation),
            ),
        invariant
            cursor.wf(),
            cursor.span == *input,
            s == input.bytes@,
            start <= cursor.cursor,
            s.len() > 0,
            is_quote(s[0]) ==> start == 1 && quotation == Some(s[0]),
            !is_quote(s[0]) ==> start == 0 && quotation is None,
        ensures
            cursor.wf(),
            cursor.span == *input,
            scan_field(s, start, quotation) == Ok::<(Seq<u8>, int), FieldParseError>(
                (field@, cursor.cursor as int),
            ),
        decreases s.len() - cursor.cursor,
    {
        let ghost i = cursor.cursor as int;
        let ghost before = field@;
        match cursor.peek() {
            None => {
                if quotation.is_none() {
                    assert(field@ + Seq::<u8>::empty() =~= field@);
                    break ;
                } else {
                    assert(scan_field(s, i, quotation) is Err);
                    return Err(FieldParseError::UnfinishedQuote);
                }
            },
            Some(c) => {
                if quotation == Some(c) {
                    cursor.advance();
                    match cursor.peek() {
                        Some(n) => {
                            if n != 0x20 && n != 0x09 {
                                return Err(FieldParseError::JunkAfterQuotes);
                            }
                        },
                        None => {},
                    }
                    assert(field@ + Seq::<u8>::empty() =~= field@);
                    break ;
                } else if quotation.is_none() && (c == 0x20 || c == 0x09) {
                    assert(field@ + Seq::<u8>::empty() =~= field@);
                    break ;
                } else if quotation.is_none() && (c == 0x27 || c == 0x22) {
                    return Err(FieldParseError::QuoteInUnquotedField);
                } else if c == 0x5c {
                    cursor.advance();
                    let character = match cursor.peek() {
                        Some(e) => e,
                        None => {
                            return Err(FieldParseError::TrailingBackslash);
                        },
                    };
                    cursor.advance();
                    if character == 0x78 {
                        let rest = cursor.as_bytes();
                        if rest.len() < 2 {
                            return Err(FieldParseError::UnfinishedHexEscape);
                        }
                        let high = hex_digit(rest[0]);
                        let low = hex_digit(rest[1]);
                        if high.is_none() || low.is_none() {
                            return Err(FieldParseError::InvalidHexEscape);
                        }
                        let byte: u8 = high.unwrap() * 16 + low.unwrap();
                        cursor.advance();
                        cursor.advance();
                        field.push(byte);
                    } else if 0x30 <= character && character <= 0x37 {
                        return Err(FieldParseError::UnsupportedOctalEscape);
                    } else if character == 0x6e {
                        field.push(0x0a);
                    } else if character == 0x72 {
                        field.push(0x0d);
                    } else if character == 0x74 {
                        field.push(0x09);
                    } else if character == 0x27 || character == 0x22 || character == 0x5c {
                        field.push(character);
                    } else {
                        return Err(FieldParseError::UnrecognizedEscape(character));
                    }
                } else {
                    cursor.advance();
                    field.push(c);
                }
                proof {
                    let step = seq![field@.last()];
                    assert(field@ =~= before + step);
                    assert(scan_field(s, i, quotation) == prepend(
                        step,
                        scan_field(s, cursor.cursor as int, quotation),
                    ));
                    match scan_field(s, cursor.cursor as int, quotation) {
                        Ok((d, end)) => {
                            assert(before + (step + d) =~= field@ + d);
                        },
                        Err(_) => {},
                    }
                }
            },
        }
    }
    let end = cursor.cursor;
    let (_, rest) = cursor.split_off_beginning();
    let f = Spanned {
        data: Some(field),
        file: input.file,
        characters: input.char_range.start..(input.char_range.start + end),
    };
    *input = rest;
    Ok(f)
}

/// Skips the spaces and tabs at the start of `input`.
pub fn take_inline_whitespace(input: &mut FileSpan)
    requires
        old(input).wf(),
    ensures
        final(input).wf(),
        final(input).bytes@.len() <= old(input).bytes@.len(),
        old(input).has_suffix(
            old(input).bytes@.len() - final(input).bytes@.len(),
            *final(input),
        ),
        forall|j: int|
            0 <= j < old(input).bytes@.len() - final(input).bytes@.len() ==> is_blank(
                old(input).bytes@[j],
            ),
        final(input).bytes@.len() > 0 ==> !is_blank(final(input).bytes@[0]),
{
    let mut cursor = input.cursor();
    while cursor.peek().is_some() && (cursor.peek().unwrap() == 0x20 || cursor.peek().unwrap()
        == 0x09)
        invariant
            cursor.wf(),
            cursor.span == *input,
            forall|j: int| 0 <= j < cursor.cursor ==> is_blank(input.bytes@[j]),
        decreases input.bytes@.len() - cursor.cursor,
    {
        cursor.advance();
    }
    let (_, rest) = cursor.split_off_beginning();
    *input = rest;
}

} // verus!
