//! What the history file holds.
//!
//! The file holds one submitted line per record, each ended by a line feed,
//! in UTF-8 and without escaping. The program appends a record for each line
//! that the history accepts, and on its next start reads the records back.

use core::str::Utf8Error;
use vstd::prelude::*;
use vstd::string::*;
use vstd::utf8::*;

use crate::history::{lines_view, HistoryState};
use crate::storage::HistoryFileError;
use crate::text::{lemma_utf8_concat, lemma_utf8_single};

verus! {

/// The byte that ends a record.
pub const LINE_FEED: u8 = 0x0A;

/// The byte that is dropped where it stands directly before the end of a record.
pub const CARRIAGE_RETURN: u8 = 0x0D;

/// The error of `core::str::from_utf8`, which the library only tells from success.
#[verifier::external_type_specification]
#[verifier::external_body]
pub struct ExUtf8Error(Utf8Error);

/// `core::str::from_utf8` succeeds exactly on well-formed UTF-8, and the
/// string slice that it then returns is made of the bytes given.
pub assume_specification<'a>[ core::str::from_utf8 ](v: &'a [u8]) -> (res: Result<
    &'a str,
    Utf8Error,
>)
    ensures
        res is Ok <==> valid_utf8(v@),
        res matches Ok(text) ==> encode_utf8(text@) == v@,
;

/// First index at or after `from` that holds a line feed; the length if
/// there is none.
pub open spec fn newline_from(bytes: Seq<u8>, from: int) -> int
    decreases bytes.len() - from,
{
    if from >= bytes.len() {
        bytes.len() as int
    } else if from >= 0 && bytes[from] == LINE_FEED {
        from
    } else {
        newline_from(bytes, from + 1)
    }
}

/// Number of bytes of the first record of `bytes`: up to and with the first
/// line feed, or all of them where there is none.
pub open spec fn record_len(bytes: Seq<u8>) -> int {
    let end = newline_from(bytes, 0);
    if end < bytes.len() {
        end + 1
    } else {
        end
    }
}

/// The bytes of the line in the first record of `bytes`: the record without
/// its line feed, and without a carriage return directly before the line feed.
pub open spec fn first_line(bytes: Seq<u8>) -> Seq<u8> {
    let end = newline_from(bytes, 0);
    if 0 < end < bytes.len() && bytes[end - 1] == CARRIAGE_RETURN {
        bytes.subrange(0, end - 1)
    } else {
        bytes.subrange(0, end)
    }
}

/// The lines that a history file with content `bytes` gives: those of its
/// records, in order, up to the first whose line is not well-formed UTF-8.
pub open spec fn parsed_lines(bytes: Seq<u8>) -> Seq<Seq<char>>
    decreases bytes.len(),
{
    if bytes.len() == 0 || !valid_utf8(first_line(bytes)) {
        Seq::empty()
    } else {
        proof {
            lemma_newline_from(bytes, 0);
        }
        seq![decode_utf8(first_line(bytes))] + parsed_lines(bytes.skip(record_len(bytes)))
    }
}

/// Whether every record of `bytes` holds a line of well-formed UTF-8.
pub open spec fn well_formed(bytes: Seq<u8>) -> bool
    decreases bytes.len(),
{
    if bytes.len() == 0 {
        true
    } else {
        proof {
            lemma_newline_from(bytes, 0);
        }
        valid_utf8(first_line(bytes)) && well_formed(bytes.skip(record_len(bytes)))
    }
}

/// The record of `line`: the line and a line feed.
pub open spec fn record_of(line: Seq<char>) -> Seq<char> {
    line.push('\n')
}

/// The content of a history file to which the records of `lines` were
/// appended in order.
pub open spec fn file_of(lines: Seq<Seq<char>>) -> Seq<u8>
    decreases lines.len(),
{
    if lines.len() == 0 {
        Seq::empty()
    } else {
        file_of(lines.drop_last()) + encode_utf8(record_of(lines.last()))
    }
}

/// Whether `line` comes back from its record as it is: it holds no line
/// feed and does not end in a carriage return.
pub open spec fn storable(line: Seq<char>) -> bool {
    !line.contains('\n') && !(line.len() > 0 && line.last() == '\r')
}

/// The line feed that ends the first record lies at or after `from`, and no
/// line feed comes before it.
pub proof fn lemma_newline_from(bytes: Seq<u8>, from: int)
    requires
        0 <= from <= bytes.len(),
    ensures
        from <= newline_from(bytes, from) <= bytes.len(),
        newline_from(bytes, from) < bytes.len() ==> bytes[newline_from(bytes, from)] == LINE_FEED,
        forall|i: int| from <= i < newline_from(bytes, from) ==> bytes[i] != LINE_FEED,
    decreases bytes.len() - from,
{
    if from < bytes.len() && bytes[from] != LINE_FEED {
        lemma_newline_from(bytes, from + 1);
    }
}

/// An index is the first line feed at or after `from` if no line feed comes
/// before it and one stands there, or the bytes end there.
pub proof fn lemma_newline_found(bytes: Seq<u8>, from: int, end: int)
    requires
        0 <= from <= end <= bytes.len(),
        forall|i: int| from <= i < end ==> bytes[i] != LINE_FEED,
        end < bytes.len() ==> bytes[end] == LINE_FEED,
    ensures
        newline_from(bytes, from) == end,
    decreases end - from,
{
    if from < end {
        lemma_newline_found(bytes, from + 1, end);
    }
}

/// What was read from a history file.
pub struct LoadedHistory {
    /// The lines that were read, oldest first.
    pub lines: Vec<String>,
    /// The warning to give, if the reading stopped before the end.
    pub warning: Option<HistoryFileError>,
}

/// The record that is appended to the history file for `line`.
pub fn record(line: &str) -> (text: String)
    ensures
        text@ == record_of(line@),
{
    let mut text = String::from_str(line);
    text.append("\n");
    proof {
        reveal_strlit("\n");
        assert(text@ =~= record_of(line@));
    }
    text
}

/// Finds the first line feed of `bytes` at or after `from`.
fn find_newline(bytes: &[u8], from: usize) -> (end: usize)
    requires
        from <= bytes@.len(),
    ensures
        end == newline_from(bytes@, from as int),
        from <= end <= bytes@.len(),
{
    let mut end: usize = from;
    while end < bytes.len() && bytes[end] != LINE_FEED
        invariant
            from <= end <= bytes@.len(),
            forall|i: int| from <= i < end ==> bytes@[i] != LINE_FEED,
        decreases bytes@.len() - end,
    {
        end = end + 1;
    }
    proof {
        lemma_newline_found(bytes@, from as int, end as int);
    }
    end
}

/// Number of bytes of `bytes` that belong to complete records: up to and
/// with the last line feed.
pub open spec fn records_end(bytes: Seq<u8>) -> int
    decreases bytes.len(),
{
    if bytes.len() == 0 {
        0
    } else if bytes.last() == LINE_FEED {
        bytes.len() as int
    } else {
        records_end(bytes.drop_last())
    }
}

/// The content that the lines are taken from: all of it where the file was
/// read to its end, and otherwise its complete records.
pub open spec fn readable(bytes: Seq<u8>, intact: bool) -> Seq<u8> {
    if intact {
        bytes
    } else {
        bytes.take(records_end(bytes))
    }
}

/// Reads the lines of a history file from its content. Without a file
/// there are none. `intact` says whether the file could be read to its end;
/// if it could not, there is a warning, and what follows the last line feed
/// is left aside as an incomplete record. Reading stops, with a warning, at
/// the first record whose line is not well-formed UTF-8; the lines before it
/// are kept.
pub fn read_file(content: Option<&[u8]>, intact: bool) -> (loaded: LoadedHistory)
    ensures
        content is None ==> loaded.lines@.len() == 0 && loaded.warning is None,
        content matches Some(bytes) ==> {
            &&& lines_view(loaded.lines@) == parsed_lines(readable(bytes@, intact))
            &&& loaded.warning is None <==> intact && well_formed(bytes@)
            &&& loaded.warning matches Some(warning) ==> warning == HistoryFileError::ReadFailed
        },
{
    match content {
        None => LoadedHistory { lines: Vec::new(), warning: None },
        Some(bytes) => {
            if intact {
                parse_records(bytes)
            } else {
                let mut end: usize = bytes.len();
                proof {
                    assert(bytes@.take(end as int) =~= bytes@);
                }
                while end > 0 && bytes[end - 1] != LINE_FEED
                    invariant
                        end <= bytes@.len(),
                        records_end(bytes@.take(end as int)) == records_end(bytes@),
                    decreases end,
                {
                    proof {
                        assert(bytes@.take(end as int).drop_last() =~= bytes@.take(end - 1));
                    }
                    end = end - 1;
                }
                let complete = parse_records(&bytes[0..end]);
                proof {
                    assert(bytes@.subrange(0, end as int) =~= readable(bytes@, intact));
                }
                LoadedHistory { lines: complete.lines, warning: Some(HistoryFileError::ReadFailed) }
            }
        },
    }
}

/// Reads the lines of the records of `bytes`, up to the first whose line is
/// not well-formed UTF-8.
fn parse_records(bytes: &[u8]) -> (loaded: LoadedHistory)
    ensures
        lines_view(loaded.lines@) == parsed_lines(bytes@),
        loaded.warning is None <==> well_formed(bytes@),
        loaded.warning matches Some(warning) ==> warning == HistoryFileError::ReadFailed,
{
    let mut lines: Vec<String> = Vec::new();
    let mut from: usize = 0;
    proof {
        assert(bytes@.skip(0) =~= bytes@);
        assert(lines_view(lines@) + parsed_lines(bytes@) =~= parsed_lines(bytes@));
    }
    while from < bytes.len()
        invariant
            from <= bytes@.len(),
            lines_view(lines@) + parsed_lines(bytes@.skip(from as int)) == parsed_lines(bytes@),
            well_formed(bytes@.skip(from as int)) == well_formed(bytes@),
        decreases bytes@.len() - from,
    {
        let ghost tail = bytes@.skip(from as int);
        let end: usize = find_newline(bytes, from);
        let terminated = end < bytes.len();
        let stop: usize = if terminated && from < end && bytes[end - 1] == CARRIAGE_RETURN {
            (end - 1) as usize
        } else {
            end
        };
        proof {
            lemma_newline_from(bytes@, from as int);
            assert forall|i: int| 0 <= i < end - from implies tail[i] != LINE_FEED by {
                assert(tail[i] == bytes@[from + i]);
            }
            if end < bytes@.len() {
                assert(tail[end - from] == bytes@[end as int]);
            }
            lemma_newline_found(tail, 0, end - from);
            assert(bytes@.subrange(from as int, stop as int) =~= first_line(tail));
        }
        let next: usize = if terminated {
            end + 1
        } else {
            end
        };
        proof {
            assert(tail.skip(record_len(tail)) =~= bytes@.skip(next as int));
        }
        match core::str::from_utf8(&bytes[from..stop]) {
            Err(_) => {
                proof {
                    assert(lines_view(lines@) + parsed_lines(tail) =~= lines_view(lines@));
                }
                return LoadedHistory { lines, warning: Some(HistoryFileError::ReadFailed) };
            },
            Ok(line) => {
                proof {
                    encode_utf8_decode_utf8(line@);
                }
                let ghost before = lines_view(lines@);
                lines.push(line.to_owned());
                proof {
                    assert(lines_view(lines@) =~= before.push(line@));
                    assert(before + (seq![line@] + parsed_lines(bytes@.skip(next as int)))
                        =~= before.push(line@) + parsed_lines(bytes@.skip(next as int)));
                }
            },
        }
        from = next;
    }
    proof {
        assert(lines_view(lines@) + parsed_lines(bytes@.skip(from as int)) =~= lines_view(lines@));
    }
    LoadedHistory { lines, warning: None }
}

/// The bytes that UTF-8 makes of a scalar value: one byte that is the value
/// itself, for a value below 0x80, and otherwise bytes from 0x80 on.
proof fn lemma_encoding_bytes(v: u32)
    by (bit_vector)
    ensures
        v <= 0x7F ==> leading_byte_width_1(v) as u32 == v,
        leading_byte_width_2(v) >= 0x80,
        leading_byte_width_3(v) >= 0x80,
        leading_byte_width_4(v) >= 0x80,
        last_continuation_byte(v) >= 0x80,
        second_last_continuation_byte(v) >= 0x80,
        third_last_continuation_byte(v) >= 0x80,
{
}

/// A byte below 0x80 in the encoding of a codepoint is that codepoint.
pub proof fn lemma_low_byte_of_scalar(c: char, i: int)
    requires
        0 <= i < encode_scalar(c as u32).len(),
        encode_scalar(c as u32)[i] < 0x80,
    ensures
        encode_scalar(c as u32)[i] as u32 == c as u32,
{
    lemma_encoding_bytes(c as u32);
}

/// A byte below 0x80 in the encoding of a text is one of its codepoints.
pub proof fn lemma_low_byte_of_text(text: Seq<char>, j: int)
    requires
        0 <= j < encode_utf8(text).len(),
        encode_utf8(text)[j] < 0x80,
    ensures
        exists|i: int| 0 <= i < text.len() && #[trigger] text[i] as u32 == encode_utf8(text)[j] as u32,
    decreases text.len(),
{
    let head = encode_scalar(text[0] as u32);
    if j < head.len() {
        lemma_low_byte_of_scalar(text[0], j);
        assert(text[0] as u32 == encode_utf8(text)[j] as u32);
    } else {
        let rest = text.drop_first();
        lemma_low_byte_of_text(rest, j - head.len());
        let i = choose|i: int|
            0 <= i < rest.len() && #[trigger] rest[i] as u32 == encode_utf8(rest)[j - head.len()] as u32;
        assert(text[i + 1] as u32 == encode_utf8(text)[j] as u32);
    }
}

/// The encoding of a storable line holds no line feed and does not end in a
/// carriage return.
pub proof fn lemma_storable_bytes(line: Seq<char>)
    requires
        storable(line),
    ensures
        forall|j: int| 0 <= j < encode_utf8(line).len() ==> encode_utf8(line)[j] != LINE_FEED,
        encode_utf8(line).len() > 0 ==> encode_utf8(line).last() != CARRIAGE_RETURN,
{
    let bytes = encode_utf8(line);
    assert forall|j: int| 0 <= j < bytes.len() implies bytes[j] != LINE_FEED by {
        if bytes[j] == LINE_FEED {
            lemma_low_byte_of_text(line, j);
            let i = choose|i: int| 0 <= i < line.len() && #[trigger] line[i] as u32 == bytes[j] as u32;
            char_u32_cast(line[i], 0x0Au32);
            char_u32_cast('\n', 0x0Au32);
            assert(line.contains('\n'));
        }
    }
    if bytes.len() > 0 && bytes.last() == CARRIAGE_RETURN {
        assert(line.len() > 0);
        let last = line.last();
        lemma_utf8_concat(line.drop_last(), seq![last]);
        lemma_utf8_single(last);
        assert(line.drop_last() + seq![last] =~= line);
        let tail = encode_scalar(last as u32);
        assert(bytes.last() == tail.last());
        lemma_low_byte_of_scalar(last, tail.len() - 1);
        char_u32_cast(last, 0x0Du32);
        char_u32_cast('\r', 0x0Du32);
    }
}

/// A file that begins with the record of a storable line gives that line
/// first, and then what the rest of the file gives.
pub proof fn lemma_parse_record(line: Seq<char>, rest: Seq<u8>)
    requires
        storable(line),
    ensures
        parsed_lines(encode_utf8(record_of(line)) + rest) == seq![line] + parsed_lines(rest),
        well_formed(encode_utf8(record_of(line)) + rest) == well_formed(rest),
{
    let body = encode_utf8(line);
    let bytes = encode_utf8(record_of(line)) + rest;
    lemma_utf8_concat(line, seq!['\n']);
    lemma_utf8_single('\n');
    lemma_encoding_bytes('\n' as u32);
    assert(line + seq!['\n'] =~= record_of(line));
    assert(encode_scalar('\n' as u32) =~= seq![LINE_FEED]);
    assert(bytes =~= body + seq![LINE_FEED] + rest);
    lemma_storable_bytes(line);
    assert(bytes[body.len() as int] == LINE_FEED);
    lemma_newline_found(bytes, 0, body.len() as int);
    if body.len() > 0 {
        assert(bytes[body.len() - 1] == body.last());
    }
    assert(first_line(bytes) =~= body);
    assert(bytes.skip(record_len(bytes)) =~= rest);
    encode_utf8_valid_utf8(line);
    encode_utf8_decode_utf8(line);
}

/// The content of a history file begins with the record of its first line.
pub proof fn lemma_file_of_front(lines: Seq<Seq<char>>)
    requires
        lines.len() > 0,
    ensures
        file_of(lines) == encode_utf8(record_of(lines[0])) + file_of(lines.drop_first()),
    decreases lines.len(),
{
    if lines.len() == 1 {
        assert(lines.drop_last() =~= Seq::<Seq<char>>::empty());
        assert(lines.drop_first() =~= Seq::<Seq<char>>::empty());
        assert(file_of(lines) =~= encode_utf8(record_of(lines[0])) + file_of(lines.drop_first()));
    } else {
        lemma_file_of_front(lines.drop_last());
        assert(lines.drop_last().drop_first() =~= lines.drop_first().drop_last());
        assert(lines.drop_last()[0] == lines[0]);
        assert(lines.drop_first().last() == lines.last());
        assert(file_of(lines) =~= encode_utf8(record_of(lines[0])) + file_of(lines.drop_first()));
    }
}

/// A history file that holds the records of storable lines gives those
/// lines back, in the same order and with the same content.
pub proof fn lemma_history_round_trip(lines: Seq<Seq<char>>)
    requires
        forall|i: int| 0 <= i < lines.len() ==> storable(#[trigger] lines[i]),
    ensures
        parsed_lines(file_of(lines)) == lines,
        well_formed(file_of(lines)),
    decreases lines.len(),
{
    if lines.len() > 0 {
        let rest = lines.drop_first();
        assert forall|i: int| 0 <= i < rest.len() implies storable(#[trigger] rest[i]) by {
            assert(rest[i] == lines[i + 1]);
        }
        lemma_history_round_trip(rest);
        lemma_file_of_front(lines);
        lemma_parse_record(lines[0], file_of(rest));
        assert(seq![lines[0]] + rest =~= lines);
    }
}

/// Appending the record of each accepted line keeps the file in step with
/// the history: a file that holds the records of the entries, with the
/// record of a submitted line appended where the history accepts the line,
/// gives back the entries after the submission.
pub proof fn lemma_submission_round_trip(history: HistoryState, line: Seq<char>)
    requires
        forall|i: int| 0 <= i < history.entries.len() ==> storable(#[trigger] history.entries[i]),
        storable(line),
    ensures
        history.accepts(line) ==> parsed_lines(
            file_of(history.entries) + encode_utf8(record_of(line)),
        ) == history.pushed(line).entries,
        !history.accepts(line) ==> parsed_lines(file_of(history.entries)) == history.pushed(
            line,
        ).entries,
{
    lemma_history_round_trip(history.entries);
    if history.accepts(line) {
        let after = history.entries.push(line);
        assert(after.drop_last() =~= history.entries);
        lemma_history_round_trip(after);
    }
}

} // verus!
