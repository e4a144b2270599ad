//! Runs of a file's bytes that remember where in the file they lie.

use std::ops::Range;
use vstd::prelude::*;
use vstd::slice::slice_subrange;

verus! {

/// A run of bytes out of a file, with the file's path and the range of
/// characters the run covers in it.
#[derive(Debug)]
pub struct FileSpan<'a, 'b> {
    pub bytes: &'a [u8],
    pub file: &'b [u8],
    pub char_range: Range<usize>,
}

impl<'a, 'b> Clone for FileSpan<'a, 'b> {
    fn clone(&self) -> (r: Self)
        ensures
            r == *self,
    {
        FileSpan {
            bytes: self.bytes,
            file: self.file,
            char_range: self.char_range.start..self.char_range.end,
        }
    }
}

impl<'a, 'b> FileSpan<'a, 'b> {
    /// The range covers exactly the bytes of the span.
    pub open spec fn wf(&self) -> bool {
        self.char_range.start + self.bytes@.len() == self.char_range.end
    }

    /// `head` is the first `k` bytes of this span, as a span of their own.
    pub open spec fn has_prefix(&self, k: int, head: FileSpan<'a, 'b>) -> bool {
        &&& head.bytes@ == self.bytes@.subrange(0, k)
        &&& head.file == self.file
        &&& head.char_range.start == self.char_range.start
        &&& head.char_range.end == self.char_range.start + k
    }

    /// `tail` is what is left of this span after its first `k` bytes.
    pub open spec fn has_suffix(&self, k: int, tail: FileSpan<'a, 'b>) -> bool {
        &&& tail.bytes@ == self.bytes@.subrange(k, self.bytes@.len() as int)
        &&& tail.file == self.file
        &&& tail.char_range.start == self.char_range.start + k
        &&& tail.char_range.end == self.char_range.end
    }

    /// A span over a whole file.
    pub fn from_slice(bytes: &'a [u8], file: &'b [u8]) -> (r: Self)
        ensures
            r.bytes@ == bytes@,
            r.file == file,
            r.char_range.start == 0,
            r.char_range.end == bytes@.len(),
            r.wf(),
    {
        Self { bytes, file, char_range: 0..bytes.len() }
    }

    /// A cursor at the start of the span.
    pub(crate) fn cursor(&self) -> (r: SpanCursor<'a, 'b>)
        requires
            self.wf(),
        ensures
            r.span == *self,
            r.cursor == 0,
            r.wf(),
    {
        SpanCursor { span: self.clone(), cursor: 0 }
    }

    pub fn bytes(&self) -> (r: &'a [u8])
        ensures
            r@ == self.bytes@,
    {
        self.bytes
    }
}

/// Whether `line` holds no line break.
pub open spec fn no_newline(line: Seq<u8>) -> bool {
    forall|j: int| 0 <= j < line.len() ==> line[j] != 0x0a
}

impl<'a, 'b> FileSpan<'a, 'b> {
    /// Takes the longest run of bytes at the start on which `predicate` holds.
    pub(crate) fn take_while(&mut self, predicate: impl Fn(u8) -> bool) -> (r: Self)
        requires
            old(self).wf(),
            forall|b: u8| predicate.requires((b,)),
        ensures
            r.wf(),
            final(self).wf(),
            old(self).has_prefix(r.bytes@.len() as int, r),
            old(self).has_suffix(r.bytes@.len() as int, *final(self)),
            forall|j: int| 0 <= j < r.bytes@.len() ==> predicate.ensures((old(self).bytes@[j],), true),
            r.bytes@.len() < old(self).bytes@.len() ==> predicate.ensures(
                (old(self).bytes@[r.bytes@.len() as int],),
                false,
            ),
    {
        let mut split_idx: usize = 0;
        while split_idx < self.bytes.len()
            invariant
                split_idx <= self.bytes@.len(),
                forall|b: u8| predicate.requires((b,)),
                forall|j: int| 0 <= j < split_idx ==> predicate.ensures((self.bytes@[j],), true),
            ensures
                split_idx <= self.bytes@.len(),
                forall|j: int| 0 <= j < split_idx ==> predicate.ensures((self.bytes@[j],), true),
                split_idx < self.bytes@.len() ==> predicate.ensures((self.bytes@[split_idx as int],), false),
            decreases self.bytes@.len() - split_idx,
        {
            if !predicate(self.bytes[split_idx]) {
                break;
            }
            split_idx = split_idx + 1;
        }
        let mut cursor = self.cursor();
        cursor.advance_n(split_idx);
        let (taken, rest) = cursor.split_off_beginning();
        *self = rest;
        taken
    }

    /// The lines of the span, without their line breaks.
    pub fn lines(&self) -> (r: Lines<'a, 'b>)
        requires
            self.wf(),
        ensures
            r.0 == *self,
    {
        Lines(self.clone())
    }
}

/// The lines of a span, taken one at a time from the front.
pub struct Lines<'a, 'b>(pub FileSpan<'a, 'b>);

impl<'a, 'b> Lines<'a, 'b> {
    /// Takes the next line, up to the next line break or the end, and drops
    /// the line break; `None` once nothing is left.
    pub fn next(&mut self) -> (r: Option<FileSpan<'a, 'b>>)
        requires
            old(self).0.wf(),
        ensures
            final(self).0.wf(),
            match r {
                None => old(self).0.bytes@.len() == 0 && *final(self) == *old(self),
                Some(line) => {
                    let k = line.bytes@.len() as int;
                    &&& line.wf()
                    &&& old(self).0.bytes@.len() > 0
                    &&& old(self).0.has_prefix(k, line)
                    &&& no_newline(line.bytes@)
                    &&& if k < old(self).0.bytes@.len() {
                        old(self).0.bytes@[k] == 0x0a && old(self).0.has_suffix(k + 1, final(self).0)
                    } else {
                        old(self).0.has_suffix(k, final(self).0)
                    }
                },
            },
    {
        if self.0.bytes().len() == 0 {
            return None;
        }
        let mut cursor = self.0.cursor();
        while cursor.peek().is_some() && cursor.peek().unwrap() != 0x0a
            invariant
                cursor.wf(),
                cursor.span == self.0,
                forall|j: int| 0 <= j < cursor.cursor ==> self.0.bytes@[j] != 0x0a,
            decreases cursor.span.bytes@.len() - cursor.cursor,
        {
            cursor.advance();
        }
        let ghost whole = self.0;
        let k = cursor.cursor;
        let (line, rest) = cursor.split_off_beginning();
        assert(no_newline(line.bytes@));
        self.0 = rest;
        if self.0.bytes().len() != 0 {
            let mut cursor = self.0.cursor();
            cursor.advance();
            let (_, rest) = cursor.split_off_beginning();
            assert(rest.bytes@ =~= whole.bytes@.subrange(k + 1, whole.bytes@.len() as int));
            self.0 = rest;
        }
        Some(line)
    }
}

/// A position inside a span, moved forward while the span is looked at and
/// then used to cut the span in two.
pub struct SpanCursor<'a, 'b> {
    pub span: FileSpan<'a, 'b>,
    pub cursor: usize,
}

impl<'a, 'b> SpanCursor<'a, 'b> {
    pub open spec fn wf(&self) -> bool {
        &&& self.span.wf()
        &&& self.cursor <= self.span.bytes@.len()
    }

    /// The byte under the cursor, if the cursor has not reached the end.
    pub(crate) fn peek(&self) -> (r: Option<u8>)
        requires
            self.wf(),
        ensures
            r == (if self.cursor < self.span.bytes@.len() {
                Some(self.span.bytes@[self.cursor as int])
            } else {
                None::<u8>
            }),
    {
        if self.cursor < self.span.bytes.len() {
            Some(self.span.bytes[self.cursor])
        } else {
            None
        }
    }

    pub(crate) fn advance(&mut self)
        requires
            old(self).wf(),
            old(self).cursor < old(self).span.bytes@.len(),
        ensures
            final(self).wf(),
            final(self).span == old(self).span,
            final(self).cursor == old(self).cursor + 1,
    {
        self.cursor = self.cursor + 1;
    }

    pub(crate) fn advance_n(&mut self, count: usize)
        requires
            old(self).wf(),
            old(self).cursor + count <= old(self).span.bytes@.len(),
        ensures
            final(self).wf(),
            final(self).span == old(self).span,
            final(self).cursor == old(self).cursor + count,
    {
        self.cursor = self.cursor + count;
    }

    /// Cuts the span at the cursor: the part before it, and the rest.
    pub fn split_off_beginning(self) -> (r: (FileSpan<'a, 'b>, FileSpan<'a, 'b>))
        requires
            self.wf(),
        ensures
            self.span.has_prefix(self.cursor as int, r.0),
            self.span.has_suffix(self.cursor as int, r.1),
            r.0.wf(),
            r.1.wf(),
    {
        let split = FileSpan {
            bytes: slice_subrange(self.span.bytes, 0, self.cursor),
            file: self.span.file,
            char_range: self.span.char_range.start..(self.span.char_range.start + self.cursor),
        };
        let rest = FileSpan {
            bytes: slice_subrange(self.span.bytes, self.cursor, self.span.bytes.len()),
            file: self.span.file,
            char_range: (self.span.char_range.start + self.cursor)..self.span.char_range.end,
        };
        (split, rest)
    }

    /// The bytes from the cursor on.
    pub(crate) fn as_bytes(&self) -> (r: &'a [u8])
        requires
            self.wf(),
        ensures
            r@ == self.span.bytes@.subrange(self.cursor as int, self.span.bytes@.len() as int),
    {
        slice_subrange(self.span.bytes, self.cursor, self.span.bytes.len())
    }
}

} // verus!
