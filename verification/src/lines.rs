//! List files: the bytes of a file taken apart into lines.
//!
//! A line ends at a line feed; a carriage return just before the line feed
//! belongs to the terminator. What follows the last line feed is a line too,
//! unless it is empty. A line that is not UTF-8 ends the list: the lines
//! before it stand, nothing after it is looked at.

use crate::text::texts;
use vstd::prelude::*;
use vstd::slice::*;
use vstd::utf8::*;

verus! {

/// The byte that ends a line.
pub open spec fn line_feed() -> u8 {
    10
}

/// The byte that may precede the line feed in a line's terminator.
pub open spec fn carriage_return() -> u8 {
    13
}

/// The position of the first line feed at or after `from`, or the length of
/// `bytes` where there is none.
pub open spec fn line_end(bytes: Seq<u8>, from: int) -> int
    decreases bytes.len() - from,
{
    if from < 0 || from >= bytes.len() {
        bytes.len() as int
    } else if bytes[from] == line_feed() {
        from
    } else {
        line_end(bytes, from + 1)
    }
}

/// Where the text of the line from `start` to the terminator at `end` stops:
/// before a carriage return that the line feed follows.
pub open spec fn text_end(bytes: Seq<u8>, start: int, end: int) -> int {
    if start < end < bytes.len() && bytes[end - 1] == carriage_return() {
        end - 1
    } else {
        end
    }
}

/// The lines of `bytes` from position `start` on. With `complete` false the
/// bytes were cut short by a failed read, and an unterminated last line is
/// left out.
pub open spec fn lines_from(bytes: Seq<u8>, complete: bool, start: int) -> Seq<Seq<char>>
    decreases bytes.len() - start,
{
    if start < 0 || start >= bytes.len() {
        Seq::empty()
    } else {
        proof {
            lemma_line_end_bounds(bytes, start);
        }
        let end = line_end(bytes, start);
        let raw = bytes.subrange(start, text_end(bytes, start, end));
        if !valid_utf8(raw) {
            Seq::empty()
        } else if end >= bytes.len() {
            if complete {
                seq![decode_utf8(raw)]
            } else {
                Seq::empty()
            }
        } else {
            seq![decode_utf8(raw)] + lines_from(bytes, complete, end + 1)
        }
    }
}

/// The lines of a file that holds `bytes`.
pub open spec fn spec_lines(bytes: Seq<u8>, complete: bool) -> Seq<Seq<char>> {
    lines_from(bytes, complete, 0)
}

/// A line's terminator lies at or after its start, and within the bytes.
pub proof fn lemma_line_end_bounds(bytes: Seq<u8>, from: int)
    requires
        0 <= from <= bytes.len(),
    ensures
        from <= line_end(bytes, from) <= bytes.len(),
        line_end(bytes, from) < bytes.len() ==> bytes[line_end(bytes, from)] == line_feed(),
        forall|i: int| from <= i < line_end(bytes, from) ==> bytes[i] != line_feed(),
    decreases bytes.len() - from,
{
    if from < bytes.len() && bytes[from] != line_feed() {
        lemma_line_end_bounds(bytes, from + 1);
    }
}

/// Reads `raw` as UTF-8 text, by `core::str::from_utf8`: the text whose
/// encoding is `raw`, or nothing where `raw` is not well-formed UTF-8.
#[verifier::external_body]
fn decode_text(raw: &[u8]) -> (text: Option<String>)
    ensures
        text is Some == valid_utf8(raw@),
        text matches Some(s) ==> s@ == decode_utf8(raw@),
{
    match core::str::from_utf8(raw) {
        Ok(s) => Some(s.to_owned()),
        Err(_) => None,
    }
}

/// The position of the first line feed at or after `from`.
fn find_line_end(bytes: &[u8], from: usize) -> (end: usize)
    requires
        from <= bytes@.len(),
    ensures
        end == line_end(bytes@, from as int),
        from <= end <= bytes@.len(),
{
    let mut i = from;
    while i < bytes.len() && bytes[i] != 10
        invariant
            from <= i <= bytes@.len(),
            line_end(bytes@, from as int) == line_end(bytes@, i as int),
        decreases bytes@.len() - i,
    {
        i = i + 1;
    }
    i
}

/// Takes the bytes of a list file apart into its lines.
///
/// `complete` says that the bytes reach the end of the file; where a read
/// failed on the way, the line that was being read is left out.
pub fn parse_lines(bytes: &[u8], complete: bool) -> (lines: Vec<String>)
    ensures
        texts(lines@) == spec_lines(bytes@, complete),
{
    let mut lines: Vec<String> = Vec::new();
    let mut start: usize = 0;
    assert(texts(lines@) =~= Seq::<Seq<char>>::empty());
    while start < bytes.len()
        invariant
            start <= bytes@.len(),
            spec_lines(bytes@, complete) == texts(lines@) + lines_from(
                bytes@,
                complete,
                start as int,
            ),
        decreases bytes@.len() - start,
    {
        let end = find_line_end(bytes, start);
        let stop = if start < end && end < bytes.len() && bytes[end - 1] == 13 {
            end - 1
        } else {
            end
        };
        let raw = slice_subrange(bytes, start, stop);
        let ghost before = texts(lines@);
        match decode_text(raw) {
            None => {
                assert(before + Seq::<Seq<char>>::empty() =~= before);
                return lines;
            },
            Some(text) => {
                if end >= bytes.len() {
                    if complete {
                        lines.push(text);
                        assert(texts(lines@) =~= before + seq![text@]);
                    } else {
                        assert(before + Seq::<Seq<char>>::empty() =~= before);
                    }
                    return lines;
                }
                lines.push(text);
                assert(texts(lines@) =~= before + seq![text@]);
                assert(before + (seq![text@] + lines_from(bytes@, complete, end + 1)) =~= (before
                    + seq![text@]) + lines_from(bytes@, complete, end + 1));
                start = end + 1;
            },
        }
    }
    assert(texts(lines@) + Seq::<Seq<char>>::empty() =~= texts(lines@));
    lines
}

} // verus!
