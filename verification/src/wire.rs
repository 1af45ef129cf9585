//! The pieces of a response as they stand on the wire: lines, the status
//! line, header lines, the header block and the chunked framing of a body.

use crate::headers::{with_field, Fields, Headers};
use crate::text::{
    bounded_number, chars_of, find_byte, find_char, is_number, lemma_position, number_value,
    parse_number, position, starts_with, string_of, text_of, trim, trim_end, trimmed,
    trimmed_end, utf8_text,
};
use vstd::prelude::*;
use vstd::slice::slice_subrange;
use vstd::string::*;

verus! {

/// The byte that ends a line.
pub const LINE_FEED: u8 = 10;

/// The byte that may stand before the end of a line.
pub const CARRIAGE_RETURN: u8 = 13;

/// The first line of `data` and what follows it. A line ends with a line
/// feed; a carriage return before it belongs to the line's end, not to the
/// line. `None` where `data` holds no line feed.
pub open spec fn first_line(data: Seq<u8>) -> Option<(Seq<u8>, Seq<u8>)> {
    let end = position(data, LINE_FEED);
    if 0 <= end < data.len() {
        let raw = data.take(end);
        let line = if raw.len() > 0 && raw.last() == CARRIAGE_RETURN {
            raw.drop_last()
        } else {
            raw
        };
        Some((line, data.skip(end + 1)))
    } else {
        None
    }
}

/// Cuts the first line off `data`.
pub fn take_line(data: &[u8]) -> (cut: Option<(&[u8], &[u8])>)
    ensures
        match cut {
            Some((line, rest)) => first_line(data@) == Some((line@, rest@)) && rest@.len()
                < data@.len(),
            None => first_line(data@).is_none(),
        },
{
    let end = find_byte(data, LINE_FEED);
    proof {
        lemma_position(data@, LINE_FEED);
    }
    if end >= data.len() {
        return None;
    }
    let stop = if end > 0 && data[end - 1] == CARRIAGE_RETURN {
        end - 1
    } else {
        end
    };
    let line = slice_subrange(data, 0, stop);
    let rest = slice_subrange(data, end + 1, data.len());
    proof {
        let raw = data@.take(end as int);
        assert(line@ =~= if raw.len() > 0 && raw.last() == CARRIAGE_RETURN {
            raw.drop_last()
        } else {
            raw
        });
        assert(rest@ =~= data@.skip(end + 1));
    }
    Some((line, rest))
}

/// What a status line says.
pub struct StatusView {
    pub version: Seq<char>,
    pub code: u16,
    pub message: Seq<char>,
}

/// The status line `line`, read. The line is cut at its single spaces and
/// needs three parts: the first is `HTTP/` and the version, the second a
/// status code from 100 to 599 in decimal digits, the third the message.
/// What follows the third part is left out.
pub open spec fn status_of(line: Seq<char>) -> Option<StatusView> {
    let first_end = position(line, ' ');
    if 0 <= first_end < line.len() {
        let first = line.take(first_end);
        let after_first = line.skip(first_end + 1);
        let second_end = position(after_first, ' ');
        if 0 <= second_end < after_first.len() {
            let second = after_first.take(second_end);
            let after_second = after_first.skip(second_end + 1);
            let third = after_second.take(position(after_second, ' '));
            match bounded_number(second, 10, 599) {
                Some(code) => if "HTTP/"@.is_prefix_of(first) && code >= 100 {
                    Some(StatusView { version: first.skip(5), code: code as u16, message: third })
                } else {
                    None
                },
                None => None,
            }
        } else {
            None
        }
    } else {
        None
    }
}

/// A status line, read.
#[derive(Debug)]
pub struct StatusLine {
    pub http_version: String,
    pub status_code: u16,
    pub status_message: String,
}

impl View for StatusLine {
    type V = StatusView;

    open spec fn view(&self) -> StatusView {
        StatusView {
            version: self.http_version@,
            code: self.status_code,
            message: self.status_message@,
        }
    }
}

/// Reads a status line.
pub fn parse_status_line(line: &[char]) -> (status: Option<StatusLine>)
    ensures
        match status {
            Some(s) => status_of(line@) == Some(s@),
            None => status_of(line@).is_none(),
        },
{
    let first_end = find_char(line, ' ');
    proof {
        lemma_position(line@, ' ');
        reveal_strlit("HTTP/");
    }
    if first_end >= line.len() {
        return None;
    }
    let first = slice_subrange(line, 0, first_end);
    let after_first = slice_subrange(line, first_end + 1, line.len());
    let second_end = find_char(after_first, ' ');
    proof {
        lemma_position(after_first@, ' ');
        assert(after_first@ =~= line@.skip(first_end + 1));
    }
    if second_end >= after_first.len() {
        return None;
    }
    let second = slice_subrange(after_first, 0, second_end);
    let after_second = slice_subrange(after_first, second_end + 1, after_first.len());
    let third_end = find_char(after_second, ' ');
    proof {
        lemma_position(after_second@, ' ');
        assert(after_second@ =~= after_first@.skip(second_end + 1));
    }
    let third = slice_subrange(after_second, 0, third_end);
    let code = match parse_number(second, 10, 599) {
        Some(c) => c,
        None => {
            return None;
        },
    };
    if !starts_with(first, "HTTP/") || code < 100 {
        return None;
    }
    let version = slice_subrange(first, 5, first.len());
    proof {
        assert(version@ =~= first@.skip(5));
    }
    Some(
        StatusLine {
            http_version: string_of(version),
            status_code: code as u16,
            status_message: string_of(third),
        },
    )
}

/// Name and value of the header line `line`. The name stands before the
/// first colon; the value is what follows it, without the white space at its
/// ends. A line without a colon is a name without a value.
pub open spec fn header_of(line: Seq<char>) -> (Seq<char>, Seq<char>) {
    let colon = position(line, ':');
    if 0 <= colon < line.len() {
        (line.take(colon), trim(line.skip(colon + 1)))
    } else {
        (line, Seq::<char>::empty())
    }
}

/// Reads a header line.
pub fn parse_header_line(line: &[char]) -> (field: (String, String))
    ensures
        (field.0@, field.1@) == header_of(line@),
{
    let colon = find_char(line, ':');
    proof {
        lemma_position(line@, ':');
    }
    if colon < line.len() {
        let after = slice_subrange(line, colon + 1, line.len());
        proof {
            assert(after@ =~= line@.skip(colon + 1));
        }
        (string_of(slice_subrange(line, 0, colon)), string_of(trimmed(after)))
    } else {
        (string_of(line), String::new())
    }
}

/// The header block at the start of `data`, added to the fields `seen`, and
/// what follows the block. The block is a run of header lines that an empty
/// line ends; a later line of a name overwrites an earlier one. `None` where
/// no empty line ends the block, or a line is not UTF-8.
pub open spec fn header_block(data: Seq<u8>, seen: Fields) -> Option<(Fields, Seq<u8>)>
    decreases data.len(),
{
    match first_line(data) {
        None => None,
        Some((line, rest)) => if line.len() == 0 {
            Some((seen, rest))
        } else {
            match utf8_text(line) {
                None => None,
                Some(text) => header_block(
                    rest,
                    with_field(seen, header_of(text).0, header_of(text).1),
                ),
            }
        },
    }
}

/// Reads the header block at the start of `data`.
pub fn parse_header_block(data: &[u8]) -> (block: Option<(Headers, &[u8])>)
    ensures
        match block {
            Some((headers, rest)) => header_block(data@, Fields::empty()) == Some(
                (headers@, rest@),
            ),
            None => header_block(data@, Fields::empty()).is_none(),
        },
{
    let mut headers = Headers::new();
    let mut rest = data;
    loop
        invariant
            header_block(data@, Fields::empty()) == header_block(rest@, headers@),
        decreases rest@.len(),
    {
        let (line, after) = match take_line(rest) {
            Some(cut) => cut,
            None => {
                return None;
            },
        };
        if line.len() == 0 {
            return Some((headers, after));
        }
        let text = match text_of(line) {
            Some(t) => t,
            None => {
                return None;
            },
        };
        let chars = chars_of(text.as_str());
        let (name, value) = parse_header_line(chars.as_slice());
        headers.insert(name, value);
        rest = after;
    }
}

/// The number of bytes that the size line `line` of a chunk announces: the
/// hexadecimal number that the line holds before the white space at its end.
pub open spec fn chunk_size(line: Seq<u8>) -> Option<nat> {
    match utf8_text(line) {
        None => None,
        Some(text) => if is_number(trim_end(text), 16) {
            Some(number_value(trim_end(text), 16))
        } else {
            None
        },
    }
}

/// The body that `data` frames in chunks. Each chunk is a size line, as
/// many bytes as the line announces, and a carriage return and a line feed.
/// A chunk of size zero ends the body, and so does the end of `data` where a
/// chunk would begin; what follows a chunk of size zero is left out. `None`
/// where a size line is no hexadecimal number, has no end, or the bytes that
/// it announces, or the line end behind them, are not there.
pub open spec fn chunked_body(data: Seq<u8>) -> Option<Seq<u8>>
    decreases data.len(),
{
    if data.len() == 0 {
        Some(Seq::<u8>::empty())
    } else {
        match first_line(data) {
            None => None,
            Some((line, rest)) => match chunk_size(line) {
                None => None,
                Some(size) => {
                    let n = size as int;
                    if n == 0 {
                        Some(Seq::<u8>::empty())
                    } else if rest.len() < n + 2 || rest[n] != CARRIAGE_RETURN || rest[n + 1]
                        != LINE_FEED {
                        None
                    } else {
                        match chunked_body(rest.skip(n + 2)) {
                            None => None,
                            Some(tail) => Some(rest.take(n) + tail),
                        }
                    }
                },
            },
        }
    }
}

/// `head` before the body `tail`, where there is one.
pub open spec fn prepend(head: Seq<u8>, tail: Option<Seq<u8>>) -> Option<Seq<u8>> {
    match tail {
        Some(t) => Some(head + t),
        None => None,
    }
}

/// Takes the body out of its chunks.
pub fn decode_chunked(data: &[u8]) -> (body: Option<Vec<u8>>)
    ensures
        match body {
            Some(b) => chunked_body(data@) == Some(b@),
            None => chunked_body(data@).is_none(),
        },
{
    let mut out: Vec<u8> = Vec::new();
    let mut rest = data;
    proof {
        assert(Seq::<u8>::empty() + chunked_body(data@).unwrap() =~= chunked_body(data@).unwrap());
    }
    loop
        invariant
            chunked_body(data@) == prepend(out@, chunked_body(rest@)),
        decreases rest@.len(),
    {
        if rest.len() == 0 {
            proof {
                assert(out@ + Seq::<u8>::empty() =~= out@);
            }
            return Some(out);
        }
        let (line, after) = match take_line(rest) {
            Some(cut) => cut,
            None => {
                return None;
            },
        };
        let text = match text_of(line) {
            Some(t) => t,
            None => {
                return None;
            },
        };
        let chars = chars_of(text.as_str());
        let digits = trimmed_end(chars.as_slice());
        let n = match parse_number(digits, 16, after.len() as u64) {
            Some(n) => n as usize,
            None => {
                return None;
            },
        };
        if n == 0 {
            proof {
                assert(out@ + Seq::<u8>::empty() =~= out@);
            }
            return Some(out);
        }
        if after.len() - n < 2 || after[n] != CARRIAGE_RETURN || after[n + 1] != LINE_FEED {
            return None;
        }
        let ghost before = out@;
        let mut i: usize = 0;
        while i < n
            invariant
                i <= n <= after.len(),
                out@ == before + after@.take(i as int),
            decreases n - i,
        {
            out.push(after[i]);
            proof {
                assert(out@ =~= before + after@.take(i + 1));
            }
            i += 1;
        }
        let next = slice_subrange(after, n + 2, after.len());
        proof {
            assert(next@ =~= after@.skip(n + 2));
            let tail = chunked_body(next@);
            if tail.is_some() {
                assert(before + (after@.take(n as int) + tail.unwrap()) =~= out@ + tail.unwrap());
            }
        }
        rest = next;
    }
}

} // verus!
