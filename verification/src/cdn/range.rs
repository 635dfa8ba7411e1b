//! Serving a file with HTTP `Range` semantics.
//!
//! A `Range` header has the form `bytes=start-end`, either end optional. The
//! reply to a request without one is the whole file with status 200; with
//! one it is the bytes `start..=end` with status 206. A header that cannot
//! be read, or a range outside the file, is turned down.

use vstd::prelude::*;
use vstd::slice::{slice_subrange, slice_to_vec};

use crate::text::{
    append_chars, append_str, chars_of, decimal, decimal_chars, parse_u64, remove_all, split,
    split_chars, string_of, strip_all, texts, unsigned_literal,
};

verus! {

/// The largest number of bytes handed out in one piece of a body.
pub const CHUNK_SIZE: u64 = 16384;

/// Why a request for a range was turned down. Each is answered with 400.
#[derive(Debug, Clone, Copy, PartialEq, Eq, Structural)]
pub enum Error {
    /// The first bound is no unsigned decimal number.
    BadStart,
    /// The last bound is no unsigned decimal number.
    BadEnd,
    /// The last bound is left open, and the file holds no byte.
    EmptyFile,
    /// The range does not lie within the file, or its bounds are reversed.
    Unsatisfiable,
}

/// What is sent back for a request: status, headers and body.
#[derive(Debug)]
pub struct Response {
    pub status: u16,
    pub content_type: String,
    pub accept_ranges: String,
    pub content_range: Option<String>,
    pub content_length: u64,
    pub body: Vec<u8>,
}

/// Which bytes of a file a reply carries, and its status.
#[derive(Debug, Clone, Copy, PartialEq, Eq, Structural)]
pub struct RangePlan {
    /// 200 for a whole file, 206 for a range.
    pub status: u16,
    /// The position of the first byte.
    pub start: u64,
    /// How many bytes, which is the `Content-Length`.
    pub byte_count: u64,
    /// The size of the file.
    pub size: u64,
}

/// The pieces of `parts` that hold at least one character.
pub open spec fn nonempty(parts: Seq<Seq<char>>) -> Seq<Seq<char>>
    decreases parts.len(),
{
    if parts.len() == 0 {
        Seq::empty()
    } else if parts.last().len() > 0 {
        nonempty(parts.drop_last()).push(parts.last())
    } else {
        nonempty(parts.drop_last())
    }
}

/// The bounds that a `Range` header names: what is left between dashes once
/// every `bytes=` is taken out, empty pieces dropped.
pub open spec fn range_fields(header: Seq<char>) -> Seq<Seq<char>> {
    nonempty(split(remove_all(header, "bytes="@), '-'))
}

/// The first and last byte position that a request asks for, in a file of
/// `size` bytes. A bound left out stands for the start and the end of the
/// file.
pub open spec fn range_params(range: Option<Seq<char>>, size: u64) -> Result<(u64, u64), Error> {
    let fields = match range {
        Some(header) => range_fields(header),
        None => Seq::empty(),
    };
    let start = if fields.len() > 0 {
        unsigned_literal(fields[0], u64::MAX as nat)
    } else {
        Some(0nat)
    };
    let end = if fields.len() > 1 {
        unsigned_literal(fields[1], u64::MAX as nat)
    } else {
        Some((size - 1) as nat)
    };
    if start is None {
        Err(Error::BadStart)
    } else if end is None {
        Err(Error::BadEnd)
    } else if fields.len() <= 1 && size == 0 {
        Err(Error::EmptyFile)
    } else {
        Ok((start->0 as u64, end->0 as u64))
    }
}

/// The reply to a request on a file of `size` bytes.
pub open spec fn range_plan(range: Option<Seq<char>>, size: u64) -> Result<RangePlan, Error> {
    match range {
        None => Ok(RangePlan { status: 200, start: 0, byte_count: size, size }),
        Some(_) => match range_params(range, size) {
            Err(e) => Err(e),
            Ok((start, end)) => if start <= end && end < size {
                Ok(RangePlan { status: 206, start, byte_count: (end - start + 1) as u64, size })
            } else {
                Err(Error::Unsatisfiable)
            },
        },
    }
}

/// `bytes {start}-{end}/{size}`
pub open spec fn content_range_text(start: u64, end: u64, size: u64) -> Seq<char> {
    "bytes "@ + decimal(start as nat) + seq!['-'] + decimal(end as nat) + seq!['/'] + decimal(
        size as nat,
    )
}

impl RangePlan {
    /// The bytes announced are bytes of the file.
    pub open spec fn wf(&self) -> bool {
        self.start + self.byte_count <= self.size
    }

    /// The value of `Content-Range`. A reply without a byte has none.
    pub open spec fn spec_content_range(&self) -> Option<Seq<char>> {
        if self.byte_count > 0 {
            Some(
                content_range_text(
                    self.start,
                    (self.start + self.byte_count - 1) as u64,
                    self.size,
                ),
            )
        } else {
            None
        }
    }

    /// The value of `Content-Range`. A reply without a byte has none.
    pub fn content_range(&self) -> (r: Option<String>)
        requires
            self.wf(),
        ensures
            match (r, self.spec_content_range()) {
                (Some(text), Some(wanted)) => text@ == wanted,
                (None, None) => true,
                _ => false,
            },
    {
        if self.byte_count == 0 {
            return None;
        }
        let end: u64 = self.start + (self.byte_count - 1);
        let mut out: Vec<char> = Vec::new();
        append_str(&mut out, "bytes ");
        let start_text = decimal_chars(self.start);
        append_chars(&mut out, start_text.as_slice());
        out.push('-');
        let end_text = decimal_chars(end);
        append_chars(&mut out, end_text.as_slice());
        out.push('/');
        let size_text = decimal_chars(self.size);
        append_chars(&mut out, size_text.as_slice());
        Some(string_of(out.as_slice()))
    }

    /// How many bytes the next piece of the body holds, once `sent` bytes
    /// have gone out: what is left, but no more than `CHUNK_SIZE`.
    pub fn next_chunk_len(&self, sent: u64) -> (n: u64)
        requires
            sent <= self.byte_count,
        ensures
            n == if self.byte_count - sent < CHUNK_SIZE {
                (self.byte_count - sent) as u64
            } else {
                CHUNK_SIZE
            },
            n == 0 <==> sent == self.byte_count,
    {
        let left: u64 = self.byte_count - sent;
        if left < CHUNK_SIZE {
            left
        } else {
            CHUNK_SIZE
        }
    }
}

/// The pieces of `parts` that hold at least one character.
fn drop_empty(parts: Vec<Vec<char>>) -> (kept: Vec<Vec<char>>)
    ensures
        texts(kept@) == nonempty(texts(parts@)),
{
    let mut kept: Vec<Vec<char>> = Vec::new();
    let mut parts = parts;
    let ghost all = texts(parts@);
    let mut i: usize = 0;
    assert(texts(kept@) =~= nonempty(all.take(0)));
    while i < parts.len()
        invariant
            i <= parts.len(),
            texts(parts@) == all,
            texts(kept@) == nonempty(all.take(i as int)),
        decreases parts.len() - i,
    {
        let piece: Vec<char> = parts[i].clone();
        assert(piece@ == all[i as int]);
        proof {
            assert(all.take(i + 1).drop_last() =~= all.take(i as int));
            assert(all.take(i + 1).last() == all[i as int]);
        }
        if piece.len() > 0 {
            assert(texts(kept@.push(piece)) =~= texts(kept@).push(piece@));
            kept.push(piece);
        }
        i += 1;
    }
    assert(all.take(parts.len() as int) =~= all);
    kept
}

/// The first and last byte position that a request asks for, in a file of
/// `size` bytes.
pub fn get_range_params(range: &Option<String>, size: u64) -> (r: Result<(u64, u64), Error>)
    ensures
        r == range_params(
            match *range {
                Some(header) => Some(header@),
                None => None,
            },
            size,
        ),
{
    match range {
        Some(range) => {
            let header = chars_of(range.as_str());
            let unit = chars_of("bytes=");
            let bare = strip_all(header.as_slice(), unit.as_slice());
            let fields = drop_empty(split_chars(bare.as_slice(), '-'));
            assert(texts(fields@) == range_fields(range@));
            assert(texts(fields@).len() == fields@.len());
            let start: u64 = if fields.len() > 0 {
                assert(texts(fields@)[0] == fields@[0]@);
                match parse_u64(fields[0].as_slice()) {
                    Some(n) => n,
                    None => {
                        return Err(Error::BadStart);
                    },
                }
            } else {
                0
            };
            let end: u64 = if fields.len() > 1 {
                assert(texts(fields@)[1] == fields@[1]@);
                match parse_u64(fields[1].as_slice()) {
                    Some(n) => n,
                    None => {
                        return Err(Error::BadEnd);
                    },
                }
            } else if size == 0 {
                return Err(Error::EmptyFile);
            } else {
                size - 1
            };
            Ok((start, end))
        },
        None => if size == 0 {
            Err(Error::EmptyFile)
        } else {
            Ok((0, size - 1))
        },
    }
}

/// Decides the reply to a request on a file of `size` bytes.
pub fn plan_range(range: &Option<String>, size: u64) -> (r: Result<RangePlan, Error>)
    ensures
        r == range_plan(
            match *range {
                Some(header) => Some(header@),
                None => None,
            },
            size,
        ),
        r matches Ok(plan) ==> plan.wf() && plan.size == size,
{
    match range {
        None => Ok(RangePlan { status: 200, start: 0, byte_count: size, size }),
        Some(_) => match get_range_params(range, size) {
            Err(e) => Err(e),
            Ok((start, end)) => if start <= end && end < size {
                Ok(RangePlan { status: 206, start, byte_count: end - start + 1, size })
            } else {
                Err(Error::Unsatisfiable)
            },
        },
    }
}

/// Answers a request for the file whose bytes are `file`.
///
/// Without a `Range` header the body is the whole file. With one that names
/// the bytes `start..=end` of the file, the body is exactly those bytes, and
/// `Content-Length` is their number.
pub fn get_range(range_header: Option<String>, file: &[u8], content_type: &str) -> (r: Result<
    Response,
    Error,
>)
    requires
        file@.len() <= u64::MAX,
    ensures
        match range_plan(
            match range_header {
                Some(header) => Some(header@),
                None => None,
            },
            file@.len() as u64,
        ) {
            Err(e) => r == Err::<Response, Error>(e),
            Ok(plan) => {
                &&& r matches Ok(response)
                &&& response.status == plan.status
                &&& response.content_type@ == content_type@
                &&& response.accept_ranges@ == "bytes"@
                &&& response.content_length == plan.byte_count
                &&& response.body@ == file@.subrange(
                    plan.start as int,
                    plan.start + plan.byte_count,
                )
                &&& match (response.content_range, plan.spec_content_range()) {
                    (Some(text), Some(wanted)) => text@ == wanted,
                    (None, None) => true,
                    _ => false,
                }
            },
        },
        range_header is None ==> (r matches Ok(response) && response.status == 200
            && response.body@ == file@ && response.content_length == file@.len()),
{
    let size: u64 = file.len() as u64;
    let plan = match plan_range(&range_header, size) {
        Ok(plan) => plan,
        Err(e) => {
            return Err(e);
        },
    };
    let first: usize = plan.start as usize;
    let past: usize = (plan.start + plan.byte_count) as usize;
    let body = slice_to_vec(slice_subrange(file, first, past));
    proof {
        if range_header is None {
            assert(file@.subrange(0, file@.len() as int) =~= file@);
        }
    }
    Ok(
        Response {
            status: plan.status,
            content_type: string_of(chars_of(content_type).as_slice()),
            accept_ranges: string_of(chars_of("bytes").as_slice()),
            content_range: plan.content_range(),
            content_length: plan.byte_count,
            body,
        },
    )
}

} // verus!
