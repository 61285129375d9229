//! Serving media files over HTTP: reading a `Range` header and deciding what
//! part of a file goes out, with which status and `Content-Range`.

use vstd::prelude::*;

use crate::text::{
    decimal, decimal_string, lemma_decimal_digits, lemma_decimal_round_trip, parse_u64, parsed_u64, push_char,
    push_str, split_once, split_once_spec, strip_prefix, has_prefix,
};

verus! {

/// The `DLNA.ORG` content features a media response announces.
pub const CONTENT_FEATURES: &'static str = "DLNA.ORG_OP=01;DLNA.ORG_CI=0;DLNA.ORG_FLAGS=01700000000000000000000000000000";

/// The two parts of a `Range` header value after `bytes=`, split at its
/// first `-`, when the header has that shape and the first part is a number.
pub open spec fn range_parts(h: Seq<char>) -> Option<(u64, Seq<char>)> {
    if !has_prefix(h, "bytes="@) {
        None
    } else {
        match split_once_spec(h.skip(6), '-') {
            None => None,
            Some((a, b)) => match parsed_u64(a) {
                None => None,
                Some(start) => Some((start, b)),
            },
        }
    }
}

/// The byte range a `Range` header selects in a file of `size` bytes:
/// `bytes=START-END` or `bytes=START-` (up to the last byte), when
/// `START <= END < size`. An empty file has no byte to select.
pub open spec fn range_spec(h: Seq<char>, size: u64) -> Option<(u64, u64)> {
    match range_parts(h) {
        None => None,
        Some((start, b)) => {
            let end: Option<u64> = if b.len() == 0 {
                if size == 0 {
                    None
                } else {
                    Some((size - 1) as u64)
                }
            } else {
                parsed_u64(b)
            };
            match end {
                None => None,
                Some(e) => if start <= e && e < size {
                    Some((start, e))
                } else {
                    None
                },
            }
        },
    }
}

/// The `Range` header `bytes=START-END`, with both numbers in decimal.
pub open spec fn range_header(start: u64, end: u64) -> Seq<char> {
    "bytes="@ + decimal(start as nat) + "-"@ + decimal(end as nat)
}

/// The `Range` header `bytes=START-`, open up to the last byte.
pub open spec fn open_range_header(start: u64) -> Seq<char> {
    "bytes="@ + decimal(start as nat) + "-"@
}

/// `bytes=` followed by a number and a `-` splits at that `-`: the number
/// is the start, what follows is the rest.
proof fn lemma_range_parts(start: u64, rest: Seq<char>)
    ensures
        range_parts("bytes="@ + decimal(start as nat) + "-"@ + rest) == Some((start, rest)),
{
    reveal_strlit("bytes=");
    reveal_strlit("-");
    let d = decimal(start as nat);
    let h = "bytes="@ + d + "-"@ + rest;
    lemma_decimal_digits(start as nat);
    lemma_decimal_round_trip(start);
    assert(h.take(6) =~= "bytes="@);
    let x = h.skip(6);
    assert(x =~= d + "-"@ + rest);
    let l = d.len() as int;
    assert(x[l] == '-');
    assert forall|j: int| 0 <= j < l implies x[j] != '-' by {
        assert(x[j] == d[j]);
        assert(crate::text::is_digit(d[j]));
    }
    assert(crate::text::is_first_at(x, '-', l));
    let i = choose|i: int| crate::text::is_first_at(x, '-', i);
    assert(i == l) by {
        if i < l {
            assert(x[i] != '-');
        }
        if i > l {
            assert(x[l] != '-');
        }
    }
    assert(x.take(l) =~= d);
    assert(x.skip(l + 1) =~= rest);
}

/// A range header with an explicit end inside the file selects exactly the
/// bytes it names: for `START <= END < size`, `bytes=START-END` gives
/// `(START, END)`, and an end past the last byte, or before the start,
/// selects nothing.
pub proof fn law_explicit_range(start: u64, end: u64, size: u64)
    ensures
        start <= end && end < size ==> range_spec(range_header(start, end), size) == Some((start, end)),
        !(start <= end && end < size) ==> range_spec(range_header(start, end), size) is None,
{
    lemma_range_parts(start, decimal(end as nat));
    lemma_decimal_digits(end as nat);
    lemma_decimal_round_trip(end);
}

/// The open form `bytes=START-` selects from START to the last byte, and
/// naming the last byte as the end selects the same: both give
/// `(START, size - 1)` when START is inside the file.
pub proof fn law_open_range(start: u64, size: u64)
    ensures
        start < size ==> range_spec(open_range_header(start), size) == Some((start, (size - 1) as u64)),
        start >= size ==> range_spec(open_range_header(start), size) is None,
        size > 0 ==> range_spec(open_range_header(start), size) == range_spec(
            range_header(start, (size - 1) as u64),
            size,
        ),
{
    lemma_range_parts(start, Seq::empty());
    assert(open_range_header(start) =~= "bytes="@ + decimal(start as nat) + "-"@ + Seq::<char>::empty());
    if size > 0 {
        law_explicit_range(start, (size - 1) as u64, size);
    }
}

/// Parse an HTTP `Range` header: `bytes=START-END` or `bytes=START-`.
/// Nothing of an empty file can be selected, so there the answer is `None`.
pub fn parse_range(range_header: &str, file_size: u64) -> (r: Option<(u64, u64)>)
    ensures
        r == range_spec(range_header@, file_size),
{
    let range = match strip_prefix(range_header, "bytes=") {
        Some(r) => r,
        None => return None,
    };
    proof {
        reveal_strlit("bytes=");
    }
    let (start_str, end_str) = match split_once(range.as_str(), '-') {
        Some(p) => p,
        None => return None,
    };
    let start = match parse_u64(start_str.as_str()) {
        Some(v) => v,
        None => return None,
    };
    let end: u64 = if end_str.as_str().unicode_len() == 0 {
        if file_size == 0 {
            return None;
        }
        file_size - 1
    } else {
        match parse_u64(end_str.as_str()) {
            Some(v) => v,
            None => return None,
        }
    };
    if start <= end && end < file_size {
        Some((start, end))
    } else {
        None
    }
}

/// How a media file is sent.
#[derive(Debug, PartialEq, Eq)]
pub enum StreamPlan {
    /// `200 OK` with the whole file.
    Full { length: u64 },
    /// `206 Partial Content` with the bytes `start..=end`.
    Partial { start: u64, end: u64, length: u64, content_range: String },
    /// `416 Range Not Satisfiable`.
    Unsatisfiable { content_range: String },
}

/// Decide how to answer a request for a file of `file_size` bytes, given its
/// `Range` header, if any.
pub fn plan_stream(range_header: Option<&str>, file_size: u64) -> (r: StreamPlan)
    ensures
        match range_header {
            None => r == StreamPlan::Full { length: file_size },
            Some(h) => match range_spec(h@, file_size) {
                Some((start, end)) => r matches StreamPlan::Partial { start: s, end: e, length, content_range }
                    && s == start && e == end && length == end - start + 1 && content_range@
                    == "bytes "@ + decimal(start as nat) + seq!['-'] + decimal(end as nat) + seq!['/']
                    + decimal(file_size as nat),
                None => r matches StreamPlan::Unsatisfiable { content_range } && content_range@
                    == "bytes */"@ + decimal(file_size as nat),
            },
        },
{
    match range_header {
        None => StreamPlan::Full { length: file_size },
        Some(h) => match parse_range(h, file_size) {
            Some((start, end)) => {
                let mut cr = String::from_str("bytes ");
                let a = decimal_string(start);
                push_str(&mut cr, a.as_str());
                push_char(&mut cr, '-');
                let b = decimal_string(end);
                push_str(&mut cr, b.as_str());
                push_char(&mut cr, '/');
                let c = decimal_string(file_size);
                push_str(&mut cr, c.as_str());
                StreamPlan::Partial { start, end, length: end - start + 1, content_range: cr }
            },
            None => {
                let mut cr = String::from_str("bytes */");
                let c = decimal_string(file_size);
                push_str(&mut cr, c.as_str());
                StreamPlan::Unsatisfiable { content_range: cr }
            },
        },
    }
}

} // verus!
