//! Byte-range parsing and stream planning.
//!
//! A `Range` header names an inclusive byte interval of a file. Parsing
//! strips a `bytes=` prefix, splits on `-`, takes the first component as the
//! start (0 when empty) and the second as the end (the last byte when empty
//! or absent), clamps the end to the file, and rejects non-numeric
//! components and inverted intervals. Planning turns the parsed interval
//! into everything a response needs: the exact byte count, the
//! `Content-Range` text, the status, and the chunk sizes to emit.

use vstd::prelude::*;

use vstd::string::StrSliceExecFns;
use vstd::string::StringExecFns;

verus! {

/// A malformed `Range` header: a non-numeric component or an inverted
/// interval.
#[derive(Debug, PartialEq, Eq, Structural)]
pub struct RangeError;

/// Whether `c` is a decimal digit.
pub open spec fn spec_is_digit(c: char) -> bool {
    '0' <= c && c <= '9'
}

/// The value of a decimal digit.
pub open spec fn spec_digit_val(c: char) -> int {
    c as int - '0' as int
}

/// Whether every character of `s` is a decimal digit.
pub open spec fn spec_all_digits(s: Seq<char>) -> bool {
    forall|i: int| 0 <= i < s.len() ==> spec_is_digit(#[trigger] s[i])
}

/// The number the digit string `s` denotes.
pub open spec fn spec_dec_val(s: Seq<char>) -> int
    decreases s.len(),
{
    if s.len() == 0 {
        0int
    } else {
        spec_dec_val(s.drop_last()) * 10 + spec_digit_val(s.last())
    }
}

/// A digit string denotes a non-negative number.
proof fn lemma_dec_val_nonneg(s: Seq<char>)
    requires
        spec_all_digits(s),
    ensures
        spec_dec_val(s) >= 0,
    decreases s.len(),
{
    if s.len() > 0 {
        assert(spec_all_digits(s.drop_last()));
        lemma_dec_val_nonneg(s.drop_last());
    }
}

/// A digit string denotes at least what any of its prefixes denotes.
proof fn lemma_dec_val_prefix_le(s: Seq<char>, i: int)
    requires
        spec_all_digits(s),
        0 <= i <= s.len(),
    ensures
        spec_dec_val(s.subrange(0, i)) <= spec_dec_val(s),
    decreases s.len() - i,
{
    if i < s.len() {
        lemma_dec_val_prefix_le(s, i + 1);
        let longer = s.subrange(0, i + 1);
        assert(longer.drop_last() =~= s.subrange(0, i));
        assert(longer.last() == s[i]);
        assert(spec_all_digits(s.subrange(0, i)));
        lemma_dec_val_nonneg(s.subrange(0, i));
        assert(spec_dec_val(s.subrange(0, i)) <= spec_dec_val(longer));
    } else {
        assert(s.subrange(0, i) =~= s);
    }
}

/// Parse a decimal number: the value when `s` is a non-empty digit string
/// whose value fits, nothing when `s` is empty, holds a non-digit, or
/// overflows.
pub fn parse_u64(s: &str) -> (r: Option<u64>)
    ensures
        r is Some <==> s@.len() > 0 && spec_all_digits(s@) && spec_dec_val(s@) <= u64::MAX,
        r is Some ==> r->0 == spec_dec_val(s@),
{
    let n = s.unicode_len();
    if n == 0 {
        return None;
    }
    let mut acc: u64 = 0;
    let mut i: usize = 0;
    proof {
        assert(s@.subrange(0, 0) =~= Seq::<char>::empty());
    }
    while i < n
        invariant
            n == s@.len(),
            i <= n,
            spec_all_digits(s@.subrange(0, i as int)),
            acc == spec_dec_val(s@.subrange(0, i as int)),
        decreases n - i,
    {
        let c = s.get_char(i);
        if c < '0' || c > '9' {
            assert(!spec_is_digit(s@[i as int]));
            return None;
        }
        let d = (c as u32 - '0' as u32) as u64;
        if acc > (u64::MAX - d) / 10 {
            proof {
                let longer = s@.subrange(0, i + 1);
                assert(longer.drop_last() =~= s@.subrange(0, i as int));
                assert(longer.last() == s@[i as int]);
                assert(spec_all_digits(longer));
                assert(spec_dec_val(longer) == acc * 10 + d);
                assert(acc * 10 + d > u64::MAX) by (nonlinear_arith)
                    requires
                        acc > (u64::MAX - d) / 10,
                        d <= 9,
                ;
                if spec_all_digits(s@) {
                    lemma_dec_val_prefix_le(s@, i + 1);
                }
            }
            return None;
        }
        let next = acc * 10 + d;
        proof {
            let longer = s@.subrange(0, i + 1);
            assert(longer.drop_last() =~= s@.subrange(0, i as int));
            assert(longer.last() == s@[i as int]);
        }
        acc = next;
        i = i + 1;
    }
    proof {
        assert(s@.subrange(0, n as int) =~= s@);
    }
    Some(acc)
}

/// Index of the first occurrence of `c` in `s`, or the length when absent.
pub open spec fn spec_find(s: Seq<char>, c: char) -> int
    decreases s.len(),
{
    if s.len() == 0 {
        0int
    } else if s[0] == c {
        0int
    } else {
        1 + spec_find(s.drop_first(), c)
    }
}

/// `spec_find` lands on the first occurrence, or past the end.
proof fn lemma_find_range(s: Seq<char>, c: char)
    ensures
        0 <= spec_find(s, c) <= s.len(),
        spec_find(s, c) < s.len() ==> s[spec_find(s, c)] == c,
        forall|j: int| 0 <= j < spec_find(s, c) ==> s[j] != c,
    decreases s.len(),
{
    if s.len() > 0 && s[0] != c {
        lemma_find_range(s.drop_first(), c);
        assert forall|j: int| 0 <= j < spec_find(s, c) implies s[j] != c by {
            if j > 0 {
                assert(s.drop_first()[j - 1] != c);
            }
        }
        if spec_find(s, c) < s.len() {
            assert(s.drop_first()[spec_find(s, c) - 1] == c);
        }
    }
}

/// Find the first occurrence of `c` in `s`, or the length when absent.
fn find_char(s: &str, c: char) -> (r: usize)
    ensures
        r == spec_find(s@, c),
{
    let n = s.unicode_len();
    let mut i: usize = 0;
    while i < n
        invariant
            n == s@.len(),
            i <= n,
            forall|j: int| 0 <= j < i ==> s@[j] != c,
        decreases n - i,
    {
        if s.get_char(i) == c {
            proof {
                lemma_find_range(s@, c);
                if spec_find(s@, c) < i {
                    assert(s@[spec_find(s@, c)] == c);
                }
            }
            return i;
        }
        i = i + 1;
    }
    proof {
        lemma_find_range(s@, c);
        if spec_find(s@, c) < n {
            assert(s@[spec_find(s@, c)] == c);
        }
    }
    n
}

/// The header body after a leading `bytes=`, or the whole header when the
/// prefix is missing.
pub open spec fn spec_strip_bytes_prefix(s: Seq<char>) -> Seq<char> {
    if s.len() >= 6 && s.subrange(0, 6) == "bytes="@ {
        s.subrange(6, s.len() as int)
    } else {
        s
    }
}

/// The start of an interval: the first component's value, 0 when the
/// component is empty, an error when it is not a number.
pub open spec fn spec_range_start(c0: Seq<char>) -> Result<u64, RangeError> {
    if c0.len() == 0 {
        Ok(0u64)
    } else if spec_all_digits(c0) && spec_dec_val(c0) <= u64::MAX {
        Ok(spec_dec_val(c0) as u64)
    } else {
        Err(RangeError)
    }
}

/// The end of an interval: the second component's value, the last byte of
/// the file when the component is empty or absent, an error when it is not
/// a number.
pub open spec fn spec_range_end(c1: Seq<char>, size: u64) -> Result<u64, RangeError> {
    if c1.len() == 0 {
        Ok((size - 1) as u64)
    } else if spec_all_digits(c1) && spec_dec_val(c1) <= u64::MAX {
        Ok(spec_dec_val(c1) as u64)
    } else {
        Err(RangeError)
    }
}

/// What parsing a `Range` header value yields for a file of `size` bytes:
/// the inclusive interval, its end clamped to the file, or an error for a
/// non-numeric component or an inverted interval.
pub open spec fn spec_parse_range(s: Seq<char>, size: u64) -> Result<(u64, u64), RangeError> {
    let body = spec_strip_bytes_prefix(s);
    let d0 = spec_find(body, '-');
    let c0 = body.subrange(0, d0);
    let rest = if d0 == body.len() {
        Seq::<char>::empty()
    } else {
        body.subrange(d0 + 1, body.len() as int)
    };
    let c1 = rest.subrange(0, spec_find(rest, '-'));
    match (spec_range_start(c0), spec_range_end(c1, size)) {
        (Ok(start), Ok(end)) => {
            let end = if end > size - 1 {
                (size - 1) as u64
            } else {
                end
            };
            if start > end {
                Err(RangeError)
            } else {
                Ok((start, end))
            }
        },
        _ => Err(RangeError),
    }
}

/// Parse a `Range` header value against a file of `size` bytes.
pub fn parse_range_header(range: &str, size: u64) -> (r: Result<(u64, u64), RangeError>)
    requires
        size >= 1,
    ensures
        r == spec_parse_range(range@, size),
        r matches Ok(interval) ==> interval.0 <= interval.1 < size,
{
    let n = range.unicode_len();
    let body: &str = if str_starts_with_bytes_eq(range) {
        range.substring_char(6, n)
    } else {
        range
    };
    let bn = body.unicode_len();
    let d0 = find_char(body, '-');
    proof {
        lemma_find_range(body@, '-');
    }
    let c0 = body.substring_char(0, d0);
    let rest: &str = if d0 == bn {
        ""
    } else {
        body.substring_char(d0 + 1, bn)
    };
    proof {
        reveal_strlit("");
        assert(""@ =~= Seq::<char>::empty());
        if d0 == bn {
            assert(rest@ == Seq::<char>::empty());
        }
    }
    let rn = rest.unicode_len();
    let d1 = find_char(rest, '-');
    proof {
        lemma_find_range(rest@, '-');
    }
    let c1 = rest.substring_char(0, d1);

    let start: u64;
    if c0.unicode_len() == 0 {
        start = 0;
    } else {
        match parse_u64(c0) {
            Some(v) => {
                start = v;
            },
            None => {
                return Err(RangeError);
            },
        }
    }
    let mut end: u64;
    if c1.unicode_len() == 0 {
        end = size - 1;
    } else {
        match parse_u64(c1) {
            Some(v) => {
                end = v;
            },
            None => {
                return Err(RangeError);
            },
        }
    }
    if end > size - 1 {
        end = size - 1;
    }
    if start > end {
        return Err(RangeError);
    }
    Ok((start, end))
}

/// Whether the header begins with `bytes=`.
fn str_starts_with_bytes_eq(s: &str) -> (r: bool)
    ensures
        r == (s@.len() >= 6 && s@.subrange(0, 6) == "bytes="@),
{
    proof {
        reveal_strlit("bytes=");
    }
    crate::strutil::str_starts_with(s, "bytes=")
}

/// The decimal digit `d` as a character.
pub open spec fn spec_digit_char(d: int) -> char {
    if d == 0 {
        '0'
    } else if d == 1 {
        '1'
    } else if d == 2 {
        '2'
    } else if d == 3 {
        '3'
    } else if d == 4 {
        '4'
    } else if d == 5 {
        '5'
    } else if d == 6 {
        '6'
    } else if d == 7 {
        '7'
    } else if d == 8 {
        '8'
    } else {
        '9'
    }
}

/// The decimal rendering of a non-negative number.
pub open spec fn spec_dec_str(n: int) -> Seq<char>
    decreases n,
{
    if n < 10 {
        seq![spec_digit_char(n)]
    } else {
        spec_dec_str(n / 10).push(spec_digit_char(n % 10))
    }
}

/// The decimal digit `d` as a one-character string.
fn digit_str(d: u64) -> (r: &'static str)
    requires
        d < 10,
    ensures
        r@ =~= seq![spec_digit_char(d as int)],
{
    proof {
        reveal_strlit("0");
        reveal_strlit("1");
        reveal_strlit("2");
        reveal_strlit("3");
        reveal_strlit("4");
        reveal_strlit("5");
        reveal_strlit("6");
        reveal_strlit("7");
        reveal_strlit("8");
        reveal_strlit("9");
    }
    if d == 0 {
        "0"
    } else if d == 1 {
        "1"
    } else if d == 2 {
        "2"
    } else if d == 3 {
        "3"
    } else if d == 4 {
        "4"
    } else if d == 5 {
        "5"
    } else if d == 6 {
        "6"
    } else if d == 7 {
        "7"
    } else if d == 8 {
        "8"
    } else {
        "9"
    }
}

/// Render a number in decimal.
pub fn u64_to_string(n: u64) -> (r: String)
    ensures
        r@ == spec_dec_str(n as int),
    decreases n,
{
    if n < 10 {
        String::from_str(digit_str(n))
    } else {
        let mut s = u64_to_string(n / 10);
        s.append(digit_str(n % 10));
        proof {
            assert(s@ =~= spec_dec_str(n as int));
        }
        s
    }
}

/// The `Content-Range` text for an interval of a file:
/// `bytes {start}-{end}/{size}`.
pub open spec fn spec_content_range(start: u64, end: u64, size: u64) -> Seq<char> {
    "bytes "@ + spec_dec_str(start as int) + "-"@ + spec_dec_str(end as int) + "/"@ + spec_dec_str(
        size as int,
    )
}

/// Render the `Content-Range` header value for an interval of a file.
pub fn content_range_text(start: u64, end: u64, size: u64) -> (r: String)
    ensures
        r@ == spec_content_range(start, end, size),
{
    let mut s = String::from_str("bytes ");
    s.append(u64_to_string(start).as_str());
    s.append("-");
    s.append(u64_to_string(end).as_str());
    s.append("/");
    s.append(u64_to_string(size).as_str());
    proof {
        assert(s@ =~= spec_content_range(start, end, size));
    }
    s
}

/// Bytes read and emitted per chunk while streaming (512 KiB).
pub const STREAM_BUF_SIZE: u64 = 512 * 1024;

/// A resolved stream request: the inclusive interval to serve from a file
/// of `size` bytes, the exact byte count, and whether the response is a
/// partial one.
pub struct StreamPlan {
    pub start: u64,
    pub end: u64,
    pub size: u64,
    pub byte_count: u64,
    pub partial: bool,
}

/// Plan a stream: parse the header when one was supplied, serve the whole
/// file when none was, and reject exactly the headers that fail parsing.
pub fn plan_stream(range_header: Option<&str>, size: u64) -> (r: Result<StreamPlan, RangeError>)
    requires
        size >= 1,
    ensures
        match r {
            Ok(plan) => {
                &&& match range_header {
                    Some(h) => spec_parse_range(h@, size) == Ok::<_, RangeError>(
                        (plan.start, plan.end),
                    ) && plan.partial,
                    None => plan.start == 0 && plan.end == size - 1 && !plan.partial,
                }
                &&& plan.size == size
                &&& plan.start <= plan.end < size
                &&& plan.byte_count == plan.end - plan.start + 1
            },
            Err(e) => range_header matches Some(h) && spec_parse_range(h@, size) is Err,
        },
{
    match range_header {
        Some(h) => {
            match parse_range_header(h, size) {
                Ok((start, end)) => Ok(
                    StreamPlan {
                        start,
                        end,
                        size,
                        byte_count: end - start + 1,
                        partial: true,
                    },
                ),
                Err(e) => Err(e),
            }
        },
        None => Ok(
            StreamPlan { start: 0, end: size - 1, size, byte_count: size, partial: false },
        ),
    }
}

impl StreamPlan {
    /// The HTTP status the response carries: `206 Partial Content` when a
    /// `Range` header was supplied, plain `200 OK` otherwise.
    pub fn status_code(&self) -> (r: u16)
        ensures
            r == (if self.partial {
                206u16
            } else {
                200u16
            }),
    {
        if self.partial {
            206
        } else {
            200
        }
    }
}

/// The total of a sequence of chunk sizes.
pub open spec fn spec_sum(s: Seq<u64>) -> int
    decreases s.len(),
{
    if s.len() == 0 {
        0int
    } else {
        spec_sum(s.drop_last()) + s.last()
    }
}

/// The chunk sizes a stream of `byte_count` bytes is emitted in: full
/// buffers, then the remainder — together exactly `byte_count` bytes, so a
/// client receives precisely the interval it asked for.
pub fn chunk_plan(byte_count: u64) -> (r: Vec<u64>)
    ensures
        spec_sum(r@) == byte_count,
        forall|i: int| 0 <= i < r@.len() ==> 0 < #[trigger] r@[i] <= STREAM_BUF_SIZE,
        forall|i: int| 0 <= i < r@.len() - 1 ==> #[trigger] r@[i] == STREAM_BUF_SIZE,
{
    let mut chunks: Vec<u64> = Vec::new();
    let mut remaining = byte_count;
    while remaining > STREAM_BUF_SIZE
        invariant
            spec_sum(chunks@) + remaining == byte_count,
            remaining <= byte_count,
            forall|i: int| 0 <= i < chunks@.len() ==> #[trigger] chunks@[i] == STREAM_BUF_SIZE,
        decreases remaining,
    {
        let ghost c0 = chunks@;
        chunks.push(STREAM_BUF_SIZE);
        proof {
            assert(chunks@.drop_last() =~= c0);
        }
        remaining = remaining - STREAM_BUF_SIZE;
    }
    if remaining > 0 {
        let ghost c0 = chunks@;
        chunks.push(remaining);
        proof {
            assert(chunks@.drop_last() =~= c0);
        }
    }
    chunks
}

/// What `mime_guess::from_ext` knows for an extension: the essence string
/// of its first guess, a lookup in the crate's static table and so a
/// function of the extension alone.
pub uninterp spec fn mime_guess_of(ext: Seq<char>) -> Option<Seq<char>>;

/// Relies on `mime_guess::from_ext(..).first()` and `Mime::essence_str`: a
/// pure table lookup from the extension alone, named `mime_guess_of`; an
/// empty extension yields an empty guess.
#[verifier::external_body]
fn guess_mime(ext: &str) -> (r: Option<String>)
    ensures
        r is Some <==> mime_guess_of(ext@) is Some,
        r matches Some(m) ==> m@ == mime_guess_of(ext@)->0,
        ext@.len() == 0 ==> r is None,
{
    match mime_guess::from_ext(ext).first() {
        Some(m) => Some(m.essence_str().to_string()),
        None => None,
    }
}

/// Everything a stream response's header block needs.
pub struct StreamHeaders {
    pub content_type: String,
    pub content_range: String,
    pub content_length: u64,
    pub status: u16,
}

/// The header block for a planned stream of a file with extension `ext`:
/// the guessed content type, the exact `Content-Range` text and length, and
/// the partial-or-full status. Nothing when no MIME type is known for the
/// extension.
pub fn response_headers(plan: &StreamPlan, ext: &str) -> (r: Option<StreamHeaders>)
    ensures
        r is Some <==> mime_guess_of(ext@) is Some,
        r matches Some(h) ==> {
            &&& h.content_type@ == mime_guess_of(ext@)->0
            &&& h.content_range@ == spec_content_range(plan.start, plan.end, plan.size)
            &&& h.content_length == plan.byte_count
            &&& h.status == (if plan.partial {
                206u16
            } else {
                200u16
            })
        },
{
    match guess_mime(ext) {
        Some(content_type) => Some(
            StreamHeaders {
                content_type,
                content_range: content_range_text(plan.start, plan.end, plan.size),
                content_length: plan.byte_count,
                status: plan.status_code(),
            },
        ),
        None => None,
    }
}

} // verus!
