//! Reading the engine's HTTP responses.

use vstd::prelude::*;

use crate::search;
use crate::text;

verus! {

/// The end of a line in an HTTP message.
pub open spec fn crlf() -> Seq<u8> {
    seq![13u8, 10u8]
}

/// Why a chunked body cannot be decoded.
#[derive(Debug, Clone, Copy, PartialEq, Eq, Structural)]
pub enum ChunkError {
    /// No line break ends the line with the chunk's size.
    MissingSizeLine,
    /// The size is not UTF-8 text.
    SizeNotText,
    /// The size is no hexadecimal number of the machine's range.
    InvalidSize,
    /// Fewer bytes follow than the size announces.
    Truncated,
}

/// What a size line holds before its extensions.
pub open spec fn size_field(line: Seq<u8>) -> Seq<u8> {
    match search::first_index(line, seq![59u8]) {
        Some(i) => line.take(i),
        None => line,
    }
}

/// The size that a size line announces: a hexadecimal number, with white space
/// around it allowed and any extensions after a semicolon left out.
pub open spec fn announced_size(line: Seq<u8>) -> Result<int, ChunkError> {
    let field = size_field(line);
    if !vstd::utf8::valid_utf8(field) {
        Err(ChunkError::SizeNotText)
    } else {
        match text::numeral_within(text::trim(vstd::utf8::decode_utf8(field)), 16, usize::MAX as int) {
            Some(size) => Ok(size),
            None => Err(ChunkError::InvalidSize),
        }
    }
}

/// What follows a chunk's data, without the line break that ends the chunk.
pub open spec fn after_chunk(rest: Seq<u8>) -> Seq<u8> {
    if search::occurs_at(rest, crlf(), 0) {
        rest.skip(2)
    } else {
        rest
    }
}

/// The payload of a chunked body where the sizes lead from chunk to chunk: the
/// data of its chunks up to the chunk of size zero.
pub open spec fn by_sizes(data: Seq<u8>) -> Result<Seq<u8>, ChunkError>
    decreases data.len(),
{
    match search::first_index(data, crlf()) {
        None => Err(ChunkError::MissingSizeLine),
        Some(nl) => match announced_size(data.take(nl)) {
            Err(e) => Err(e),
            Ok(size) => {
                let rest = data.skip(nl + 2);
                if size == 0 {
                    Ok(seq![])
                } else if rest.len() < size {
                    Err(ChunkError::Truncated)
                } else {
                    proof {
                        search::lemma_first_index(data, crlf());
                        lemma_announced_size_natural(data.take(nl));
                    }
                    match by_sizes(after_chunk(rest.skip(size))) {
                        Ok(tail) => Ok(rest.take(size) + tail),
                        Err(e) => Err(e),
                    }
                }
            },
        },
    }
}

/// The first line and what follows its break, if there is one.
pub open spec fn cut_line(data: Seq<u8>) -> Option<(Seq<u8>, Seq<u8>)> {
    match search::first_index(data, crlf()) {
        None => None,
        Some(i) => Some((data.take(i), data.skip(i + 2))),
    }
}

/// The chunk of size zero with nothing behind it: `0` and two line breaks.
pub open spec fn closing_chunk() -> Seq<u8> {
    seq![48u8, 13u8, 10u8, 13u8, 10u8]
}

/// The payload of a chunked body of exactly two chunks, each a line of its own,
/// that were announced with each other's size, where the second chunk is one byte
/// longer than the first.
pub open spec fn by_swapped_sizes(data: Seq<u8>) -> Option<Seq<u8>> {
    match cut_line(data) {
        None => None,
        Some((first_size, behind_first_size)) => match cut_line(behind_first_size) {
            None => None,
            Some((first, behind_first)) => match cut_line(behind_first) {
                None => None,
                Some((second_size, behind_second_size)) => match cut_line(behind_second_size) {
                    None => None,
                    Some((second, behind_second)) => if second.len() == first.len() + 1 && announced_size(
                        first_size,
                    ) == Ok::<int, ChunkError>(second.len() as int) && announced_size(second_size) == Ok::<
                        int,
                        ChunkError,
                    >(first.len() as int) && behind_second == closing_chunk() {
                        Some(first + second)
                    } else {
                        None
                    },
                },
            },
        },
    }
}

/// The payload of a chunked body. The sizes lead from chunk to chunk. Beyond the
/// format, where they lead to what is no size line, two neighbouring sizes that
/// were swapped are put right.
pub open spec fn dechunked(data: Seq<u8>) -> Result<Seq<u8>, ChunkError> {
    match by_sizes(data) {
        Err(ChunkError::InvalidSize) => match by_swapped_sizes(data) {
            Some(payload) => Ok(payload),
            None => Err(ChunkError::InvalidSize),
        },
        decoded => decoded,
    }
}

/// An announced size is a natural number of the machine's range.
pub proof fn lemma_announced_size_natural(line: Seq<u8>)
    ensures
        announced_size(line) matches Ok(size) ==> 0 <= size <= usize::MAX,
{
    text::lemma_numeral_natural(text::trim(vstd::utf8::decode_utf8(size_field(line))), 16);
}

/// Reads the size that a size line announces.
fn read_size(line: &[u8]) -> (out: Result<usize, ChunkError>)
    ensures
        match out {
            Ok(size) => announced_size(line@) == Ok::<int, ChunkError>(size as int),
            Err(e) => announced_size(line@) == Err::<int, ChunkError>(e),
        },
{
    let semicolon: [u8; 1] = [59u8];
    assert(semicolon@ =~= seq![59u8]);
    let end: usize = match search::find_bytes(line, semicolon.as_slice()) {
        Some(i) => i,
        None => line.len(),
    };
    let field: &[u8] = vstd::slice::slice_subrange(line, 0, end);
    assert(field@ =~= size_field(line@));
    match text::utf8_text(field) {
        None => Err(ChunkError::SizeNotText),
        Some(s) => {
            let chars: Vec<char> = text::chars_of(s.as_str());
            let (from, to) = text::trim_range(&chars, 0, chars.len());
            assert(chars@.subrange(0, chars@.len() as int) =~= chars@);
            match text::parse_numeral(&chars, from, to, 16, usize::MAX as u64) {
                Some(size) => Ok(size as usize),
                None => Err(ChunkError::InvalidSize),
            }
        },
    }
}

/// Decodes a chunked body by its sizes.
fn dechunk_by_sizes(data: &[u8]) -> (out: Result<Vec<u8>, ChunkError>)
    ensures
        match out {
            Ok(payload) => by_sizes(data@) == Ok::<Seq<u8>, ChunkError>(payload@),
            Err(e) => by_sizes(data@) == Err::<Seq<u8>, ChunkError>(e),
        },
{
    let line_break: [u8; 2] = [13u8, 10u8];
    assert(line_break@ =~= crlf());
    let n: usize = data.len();
    let mut out: Vec<u8> = Vec::new();
    let mut pos: usize = 0;
    assert(data@.skip(0) =~= data@);
    loop
        invariant
            pos <= n == data@.len(),
            line_break@ == crlf(),
            match by_sizes(data@.skip(pos as int)) {
                Ok(tail) => by_sizes(data@) == Ok::<Seq<u8>, ChunkError>(out@ + tail),
                Err(e) => by_sizes(data@) == Err::<Seq<u8>, ChunkError>(e),
            },
        decreases n - pos,
    {
        let rest: &[u8] = vstd::slice::slice_subrange(data, pos, n);
        assert(rest@ =~= data@.skip(pos as int));
        let nl: usize = match search::find_bytes(rest, line_break.as_slice()) {
            None => {
                return Err(ChunkError::MissingSizeLine);
            },
            Some(i) => i,
        };
        let line: &[u8] = vstd::slice::slice_subrange(rest, 0, nl);
        assert(line@ =~= rest@.take(nl as int));
        let size: usize = match read_size(line) {
            Err(e) => {
                return Err(e);
            },
            Ok(size) => size,
        };
        if size == 0 {
            assert(out@ + Seq::<u8>::empty() =~= out@);
            return Ok(out);
        }
        let start: usize = pos + nl + 2;
        assert(data@.skip(start as int) =~= rest@.skip(nl + 2));
        if n - start < size {
            return Err(ChunkError::Truncated);
        }
        let end: usize = start + size;
        let chunk: &[u8] = vstd::slice::slice_subrange(data, start, end);
        assert(chunk@ =~= rest@.skip(nl + 2).take(size as int));
        let ghost before = out@;
        out.extend_from_slice(chunk);
        assert(out@ =~= before + chunk@);
        let ghost left = rest@.skip(nl + 2).skip(size as int);
        assert(left =~= data@.skip(end as int));
        if n - end >= 2 && data[end] == 13u8 && data[end + 1] == 10u8 {
            assert(left.subrange(0, 2) =~= crlf());
            pos = end + 2;
            assert(after_chunk(left) =~= data@.skip(pos as int));
        } else {
            pos = end;
            assert(!search::occurs_at(left, crlf(), 0)) by {
                if search::occurs_at(left, crlf(), 0) {
                    assert(left.subrange(0, 2)[0] == 13u8);
                    assert(left.subrange(0, 2)[1] == 10u8);
                }
            }
        }
        proof {
            assert forall|tail: Seq<u8>| (before + (#[trigger] (chunk@ + tail))) == out@ + tail by {
                assert(before + (chunk@ + tail) =~= out@ + tail);
            }
        }
    }
}

/// Cuts the first line off.
fn take_line(data: &[u8]) -> (out: Option<(&[u8], &[u8])>)
    ensures
        match out {
            Some((line, behind)) => cut_line(data@) == Some((line@, behind@)),
            None => cut_line(data@) is None,
        },
{
    let line_break: [u8; 2] = [13u8, 10u8];
    assert(line_break@ =~= crlf());
    let n: usize = data.len();
    match search::find_bytes(data, line_break.as_slice()) {
        None => None,
        Some(i) => {
            let line: &[u8] = vstd::slice::slice_subrange(data, 0, i);
            let behind: &[u8] = vstd::slice::slice_subrange(data, i + 2, n);
            assert(line@ =~= data@.take(i as int));
            assert(behind@ =~= data@.skip(i + 2));
            Some((line, behind))
        },
    }
}

/// Whether a size line announces a size.
fn announces(line: &[u8], size: usize) -> (r: bool)
    ensures
        r == (announced_size(line@) == Ok::<int, ChunkError>(size as int)),
{
    match read_size(line) {
        Ok(n) => n == size,
        Err(_) => false,
    }
}

/// Whether what is left is the chunk of size zero with nothing behind it.
fn closes(rest: &[u8]) -> (r: bool)
    ensures
        r == (rest@ == closing_chunk()),
{
    let r: bool = rest.len() == 5 && rest[0] == 48u8 && rest[1] == 13u8 && rest[2] == 10u8 && rest[3] == 13u8
        && rest[4] == 10u8;
    assert(r ==> rest@ =~= closing_chunk());
    r
}

/// Decodes a chunked body of two chunks whose sizes were swapped.
fn dechunk_swapped(data: &[u8]) -> (out: Option<Vec<u8>>)
    ensures
        match out {
            Some(payload) => by_swapped_sizes(data@) == Some(payload@),
            None => by_swapped_sizes(data@) is None,
        },
{
    let (first_size, rest): (&[u8], &[u8]) = match take_line(data) {
        None => return None,
        Some(cut) => cut,
    };
    let (first, rest): (&[u8], &[u8]) = match take_line(rest) {
        None => return None,
        Some(cut) => cut,
    };
    let (second_size, rest): (&[u8], &[u8]) = match take_line(rest) {
        None => return None,
        Some(cut) => cut,
    };
    let (second, rest): (&[u8], &[u8]) = match take_line(rest) {
        None => return None,
        Some(cut) => cut,
    };
    let longer: bool = second.len() > first.len() && second.len() - first.len() == 1;
    if longer && announces(first_size, second.len()) && announces(second_size, first.len()) && closes(rest) {
        let mut out: Vec<u8> = Vec::new();
        out.extend_from_slice(first);
        assert(out@ =~= first@);
        out.extend_from_slice(second);
        assert(out@ =~= first@ + second@);
        Some(out)
    } else {
        None
    }
}

/// Decodes an HTTP/1.1 chunked transfer-encoding body into its raw payload:
/// each chunk is a hexadecimal size line, a line break, that many bytes and a
/// line break; a chunk of size zero ends the body. One leniency goes beyond the
/// format: where following the sizes leads to what is no size line, a body of
/// exactly two chunks that were announced with each other's size, the second one
/// byte longer than the first, is decoded by its line breaks.
pub fn dechunk(data: &[u8]) -> (out: Result<Vec<u8>, ChunkError>)
    ensures
        match out {
            Ok(payload) => dechunked(data@) == Ok::<Seq<u8>, ChunkError>(payload@),
            Err(e) => dechunked(data@) == Err::<Seq<u8>, ChunkError>(e),
        },
{
    match dechunk_by_sizes(data) {
        Ok(payload) => Ok(payload),
        Err(ChunkError::InvalidSize) => match dechunk_swapped(data) {
            Some(payload) => Ok(payload),
            None => Err(ChunkError::InvalidSize),
        },
        Err(e) => Err(e),
    }
}

/// Returns where the blank line that ends the headers begins.
pub fn find_double_crlf(buf: &[u8]) -> (out: Option<usize>)
    ensures
        match out {
            Some(i) => search::first_at(buf@, crlf() + crlf(), i as int),
            None => !search::occurs(buf@, crlf() + crlf()),
        },
{
    let pattern: [u8; 4] = [13u8, 10u8, 13u8, 10u8];
    assert(pattern@ =~= crlf() + crlf());
    search::find_bytes(buf, pattern.as_slice())
}

/// The head of a response: its length in bytes, its status code and its
/// headers.
#[derive(Debug, Clone)]
pub struct ResponseHead {
    pub length: usize,
    pub code: Option<u16>,
    pub headers: Vec<(String, Vec<u8>)>,
}

/// What the head of a response turned out to be.
#[derive(Debug, Clone)]
pub enum HeadStatus {
    /// The bytes are no HTTP response head.
    Malformed,
    /// The bytes end before the head does.
    Partial,
    /// The head is complete.
    Complete(ResponseHead),
}

/// A header: its name and the bytes of its value.
pub open spec fn header_model(header: (String, Vec<u8>)) -> (Seq<char>, Seq<u8>) {
    (header.0@, header.1@)
}

impl View for HeadStatus {
    type V = Option<Option<(int, Option<u16>, Seq<(Seq<char>, Seq<u8>)>)>>;

    open spec fn view(&self) -> Self::V {
        match *self {
            HeadStatus::Malformed => None,
            HeadStatus::Partial => Some(None),
            HeadStatus::Complete(head) => Some(
                Some(
                    (
                        head.length as int,
                        head.code,
                        head.headers@.map_values(|h: (String, Vec<u8>)| header_model(h)),
                    ),
                ),
            ),
        }
    }
}

/// What `httparse` reads off the start of a response, with room for thirty-two
/// headers: nothing where it is malformed, then nothing where it is
/// incomplete, then its length, status code and headers.
pub uninterp spec fn response_head(buf: Seq<u8>) -> Option<Option<(int, Option<u16>, Seq<(Seq<char>, Seq<u8>)>)>>;

/// `httparse::Response::parse`, with room for thirty-two headers: the outcome
/// is a function of the bytes alone, and a complete head is no longer than the
/// bytes given.
#[verifier::external_body]
fn parse_head(buf: &[u8]) -> (out: HeadStatus)
    ensures
        out@ == response_head(buf@),
        out matches HeadStatus::Complete(head) ==> head.length <= buf@.len(),
{
    let mut headers = [httparse::EMPTY_HEADER; 32];
    let mut resp = httparse::Response::new(&mut headers);
    match resp.parse(buf) {
        Err(_) => HeadStatus::Malformed,
        Ok(httparse::Status::Partial) => HeadStatus::Partial,
        Ok(httparse::Status::Complete(length)) => HeadStatus::Complete(ResponseHead {
            length,
            code: resp.code,
            headers: resp.headers.iter().map(|h| (h.name.to_string(), h.value.to_vec())).collect(),
        }),
    }
}

/// Why a response cannot be read.
#[derive(Debug, Clone, Copy, PartialEq, Eq, Structural)]
pub enum ResponseError {
    /// The head is no HTTP response head.
    Malformed,
    /// The head is incomplete.
    Incomplete,
    /// The head carries no status code.
    MissingStatus,
    /// The chunked body cannot be decoded.
    Body(ChunkError),
}

/// The bytes of the word that marks a chunked body.
pub open spec fn chunked_token() -> Seq<u8> {
    seq![99u8, 104u8, 117u8, 110u8, 107u8, 101u8, 100u8]
}

/// A byte with ASCII capitals turned into small letters.
pub open spec fn lower_byte(b: u8) -> u8 {
    if 65 <= b <= 90 {
        (b + 32) as u8
    } else {
        b
    }
}

/// Whether a header says that the body is chunked: a transfer encoding whose
/// value holds the word, in any case.
pub open spec fn says_chunked(header: (Seq<char>, Seq<u8>)) -> bool {
    &&& text::same_but_case(header.0, "transfer-encoding"@)
    &&& search::occurs(header.1.map_values(|b: u8| lower_byte(b)), chunked_token())
}

/// Whether any header says that the body is chunked.
pub open spec fn is_chunked(headers: Seq<(Seq<char>, Seq<u8>)>) -> bool {
    exists|i: int| 0 <= i < headers.len() && says_chunked(#[trigger] headers[i])
}

/// The status code and body of a response, given what its head is.
pub open spec fn response_from(
    buf: Seq<u8>,
    head: Option<Option<(int, Option<u16>, Seq<(Seq<char>, Seq<u8>)>)>>,
) -> Result<(u16, Seq<u8>), ResponseError> {
    match head {
        None => Err(ResponseError::Malformed),
        Some(None) => Err(ResponseError::Incomplete),
        Some(Some((length, code, headers))) => match code {
            None => Err(ResponseError::MissingStatus),
            Some(code) => if is_chunked(headers) {
                match dechunked(buf.skip(length)) {
                    Ok(body) => Ok((code, body)),
                    Err(e) => Err(ResponseError::Body(e)),
                }
            } else {
                Ok((code, buf.skip(length)))
            },
        },
    }
}

/// Whether a result is the one that a model describes.
pub open spec fn response_is(
    out: Result<(u16, Vec<u8>), ResponseError>,
    model: Result<(u16, Seq<u8>), ResponseError>,
) -> bool {
    match out {
        Ok((code, body)) => model == Ok::<(u16, Seq<u8>), ResponseError>((code, body@)),
        Err(e) => model == Err::<(u16, Seq<u8>), ResponseError>(e),
    }
}

/// Whether one header says that the body is chunked.
fn header_says_chunked(name: &str, value: &[u8]) -> (r: bool)
    ensures
        r == says_chunked((name@, value@)),
{
    if !text::same_ignoring_case(name, "transfer-encoding") {
        return false;
    }
    let mut lowered: Vec<u8> = Vec::new();
    let mut i: usize = 0;
    while i < value.len()
        invariant
            i <= value@.len(),
            lowered@ == value@.take(i as int).map_values(|b: u8| lower_byte(b)),
        decreases value@.len() - i,
    {
        let b: u8 = value[i];
        lowered.push(if 65 <= b && b <= 90 { b + 32 } else { b });
        i = i + 1;
        assert(lowered@ =~= value@.take(i as int).map_values(|b: u8| lower_byte(b)));
    }
    assert(value@.take(i as int) =~= value@);
    let token: [u8; 7] = [99u8, 104u8, 117u8, 110u8, 107u8, 101u8, 100u8];
    assert(token@ =~= chunked_token());
    search::find_bytes(lowered.as_slice(), token.as_slice()).is_some()
}

/// Whether any header says that the body is chunked.
fn headers_say_chunked(headers: &Vec<(String, Vec<u8>)>) -> (r: bool)
    ensures
        r == is_chunked(headers@.map_values(|h: (String, Vec<u8>)| header_model(h))),
{
    let ghost model = headers@.map_values(|h: (String, Vec<u8>)| header_model(h));
    let mut i: usize = 0;
    while i < headers.len()
        invariant
            i <= headers@.len(),
            model == headers@.map_values(|h: (String, Vec<u8>)| header_model(h)),
            forall|j: int| 0 <= j < i ==> !says_chunked(#[trigger] model[j]),
        decreases headers@.len() - i,
    {
        if header_says_chunked(headers[i].0.as_str(), headers[i].1.as_slice()) {
            assert(says_chunked(model[i as int]));
            return true;
        }
        assert(!says_chunked(model[i as int]));
        i = i + 1;
    }
    false
}

/// Takes the status code and the body out of a response whose head has been
/// read.
pub fn response_parts(buf: &[u8], head: HeadStatus) -> (out: Result<(u16, Vec<u8>), ResponseError>)
    requires
        head matches HeadStatus::Complete(h) ==> h.length <= buf@.len(),
    ensures
        response_is(out, response_from(buf@, head@)),
{
    match head {
        HeadStatus::Malformed => Err(ResponseError::Malformed),
        HeadStatus::Partial => Err(ResponseError::Incomplete),
        HeadStatus::Complete(h) => match h.code {
            None => Err(ResponseError::MissingStatus),
            Some(code) => {
                let chunked: bool = headers_say_chunked(&h.headers);
                let body: &[u8] = vstd::slice::slice_subrange(buf, h.length, buf.len());
                assert(body@ =~= buf@.skip(h.length as int));
                if chunked {
                    match dechunk(body) {
                        Ok(payload) => Ok((code, payload)),
                        Err(e) => Err(ResponseError::Body(e)),
                    }
                } else {
                    Ok((code, vstd::slice::slice_to_vec(body)))
                }
            },
        },
    }
}

/// Splits a whole response into its status code and its body, with any chunk
/// framing taken off.
pub fn parse_response(buf: &[u8]) -> (out: Result<(u16, Vec<u8>), ResponseError>)
    ensures
        response_is(out, response_from(buf@, response_head(buf@))),
{
    let head: HeadStatus = parse_head(buf);
    response_parts(buf, head)
}

/// The hexadecimal numeral of a natural number, in lower case.
pub open spec fn hex_numeral(n: nat) -> Seq<char>
    decreases n,
{
    if n < 16 {
        seq![crate::sign::hex_digit(n as int)]
    } else {
        hex_numeral(n / 16).push(crate::sign::hex_digit((n % 16) as int))
    }
}

/// A chunked body: each chunk is its size line, a line break, its data and a
/// line break; `end` is what follows the last of them.
pub open spec fn chunk_stream(chunks: Seq<(Seq<u8>, Seq<u8>)>, end: Seq<u8>) -> Seq<u8>
    decreases chunks.len(),
{
    if chunks.len() == 0 {
        end
    } else {
        chunks[0].0 + crlf() + chunks[0].1 + crlf() + chunk_stream(chunks.drop_first(), end)
    }
}

/// Whether each chunk has data, and a size line that announces its length.
pub open spec fn well_formed_chunks(chunks: Seq<(Seq<u8>, Seq<u8>)>) -> bool {
    forall|i: int|
        0 <= i < chunks.len() ==> {
            &&& !(#[trigger] chunks[i]).0.contains(13u8)
            &&& chunks[i].1.len() > 0
            &&& announced_size(chunks[i].0) == Ok::<int, ChunkError>(chunks[i].1.len() as int)
        }
}

/// What holds of all chunks holds of all but the first.
proof fn lemma_chunks_drop_first(chunks: Seq<(Seq<u8>, Seq<u8>)>)
    requires
        well_formed_chunks(chunks),
        chunks.len() > 0,
    ensures
        well_formed_chunks(chunks.drop_first()),
{
    let rest = chunks.drop_first();
    assert forall|i: int| 0 <= i < rest.len() implies {
        &&& !(#[trigger] rest[i]).0.contains(13u8)
        &&& rest[i].1.len() > 0
        &&& announced_size(rest[i].0) == Ok::<int, ChunkError>(rest[i].1.len() as int)
    } by {
        assert(rest[i] == chunks[i + 1]);
    }
}

/// The data of all chunks, in order.
pub open spec fn joined(chunks: Seq<(Seq<u8>, Seq<u8>)>) -> Seq<u8>
    decreases chunks.len(),
{
    if chunks.len() == 0 {
        seq![]
    } else {
        chunks[0].1 + joined(chunks.drop_first())
    }
}

/// A line that holds no carriage return ends at the first line break.
proof fn lemma_line_ends(line: Seq<u8>, rest: Seq<u8>)
    requires
        !line.contains(13u8),
    ensures
        search::first_index(line + crlf() + rest, crlf()) == Some(line.len() as int),
{
    let s = line + crlf() + rest;
    let n = line.len() as int;
    assert(s.subrange(n, n + 2) =~= crlf());
    assert forall|j: int| 0 <= j < n implies !search::occurs_at(s, crlf(), j) by {
        if search::occurs_at(s, crlf(), j) {
            assert(s.subrange(j, j + 2)[0] == 13u8);
            assert(line[j] == 13u8);
        }
    }
    search::lemma_first_index_is(s, crlf(), n);
}

/// Decoding by sizes undoes chunking.
proof fn lemma_by_sizes_inverts_chunking(
    chunks: Seq<(Seq<u8>, Seq<u8>)>,
    last_line: Seq<u8>,
    trailer: Seq<u8>,
)
    requires
        well_formed_chunks(chunks),
        !last_line.contains(13u8),
        announced_size(last_line) == Ok::<int, ChunkError>(0),
    ensures
        by_sizes(chunk_stream(chunks, last_line + crlf() + trailer)) == Ok::<Seq<u8>, ChunkError>(joined(chunks)),
    decreases chunks.len(),
{
    let end = last_line + crlf() + trailer;
    let data = chunk_stream(chunks, end);
    if chunks.len() == 0 {
        lemma_line_ends(last_line, trailer);
        assert(data.take(last_line.len() as int) =~= last_line);
    } else {
        let line = chunks[0].0;
        let body = chunks[0].1;
        let tail = chunk_stream(chunks.drop_first(), end);
        let rest = body + crlf() + tail;
        assert(data =~= line + crlf() + rest);
        lemma_by_sizes_step(line, body.len() as int, rest);
        assert(rest.take(body.len() as int) =~= body);
        let left = rest.skip(body.len() as int);
        assert(left =~= crlf() + tail);
        assert(left.subrange(0, 2) =~= crlf());
        assert(after_chunk(left) =~= tail);
        lemma_chunks_drop_first(chunks);
        lemma_by_sizes_inverts_chunking(chunks.drop_first(), last_line, trailer);
    }
}

/// Decoding undoes chunking: whatever way a payload is cut into chunks, and
/// whatever extensions the size lines carry, the chunks come back in order and
/// whole, and what follows the chunk of size zero is left out.
pub proof fn law_dechunk_inverts_chunking(
    chunks: Seq<(Seq<u8>, Seq<u8>)>,
    last_line: Seq<u8>,
    trailer: Seq<u8>,
)
    requires
        well_formed_chunks(chunks),
        !last_line.contains(13u8),
        announced_size(last_line) == Ok::<int, ChunkError>(0),
    ensures
        dechunked(chunk_stream(chunks, last_line + crlf() + trailer)) == Ok::<Seq<u8>, ChunkError>(joined(chunks)),
{
    lemma_by_sizes_inverts_chunking(chunks, last_line, trailer);
}

/// How decoding by sizes takes a size line that is complete.
proof fn lemma_by_sizes_step(line: Seq<u8>, size: int, rest: Seq<u8>)
    requires
        !line.contains(13u8),
        announced_size(line) == Ok::<int, ChunkError>(size),
        size > 0,
    ensures
        by_sizes(line + crlf() + rest) == (if rest.len() < size {
            Err(ChunkError::Truncated)
        } else {
            match by_sizes(after_chunk(rest.skip(size))) {
                Ok(tail) => Ok::<Seq<u8>, ChunkError>(rest.take(size) + tail),
                Err(e) => Err(e),
            }
        }),
{
    let data = line + crlf() + rest;
    lemma_line_ends(line, rest);
    assert(data.take(line.len() as int) =~= line);
    assert(data.skip(line.len() as int + 2) =~= rest);
}

/// What is left of a body that is cut off behind the data of a chunk: no size
/// line, or the chunks that follow, cut off.
proof fn lemma_cut_off_behind_data(tail: Seq<u8>, m: int)
    requires
        0 <= m <= tail.len() + 2,
    ensures
        m < 2 ==> by_sizes(after_chunk((crlf() + tail).take(m))) == Err::<Seq<u8>, ChunkError>(
            ChunkError::MissingSizeLine,
        ),
        m >= 2 ==> after_chunk((crlf() + tail).take(m)) == tail.take(m - 2),
{
    let left = (crlf() + tail).take(m);
    if m < 2 {
        assert(after_chunk(left) == left);
        search::lemma_first_index(left, crlf());
    } else {
        assert(left.subrange(0, 2) =~= crlf());
        assert(left.skip(2) =~= tail.take(m - 2));
    }
}

/// Whether decoding by sizes fails, and not because of a size line.
spec fn is_cut_off(data: Seq<u8>) -> bool {
    by_sizes(data) matches Err(e) && e != ChunkError::InvalidSize
}

/// Decoding by sizes fails on a chunk that is cut off, and on a whole one if it
/// fails on what follows.
proof fn lemma_cut_off_chunk(line: Seq<u8>, body: Seq<u8>, tail: Seq<u8>, k: int)
    requires
        !line.contains(13u8),
        announced_size(line) == Ok::<int, ChunkError>(body.len() as int),
        body.len() > 0,
        0 <= k <= line.len() + body.len() + tail.len() + 4,
        k >= line.len() + body.len() + 4 ==> is_cut_off(tail.take(k - line.len() - body.len() - 4)),
    ensures
        is_cut_off((line + crlf() + body + crlf() + tail).take(k)),
{
    let data = (line + crlf() + body + crlf() + tail).take(k);
    let n = line.len() as int;
    let size = body.len() as int;
    if k < n + 2 {
        assert(data =~= (line + crlf()).take(k));
        lemma_no_line_break(line, data);
    } else {
        let rest = (body + crlf() + tail).take(k - n - 2);
        assert(data =~= line + crlf() + rest);
        lemma_by_sizes_step(line, size, rest);
        if rest.len() >= size {
            let m = rest.len() - size;
            assert(rest.skip(size) =~= (crlf() + tail).take(m));
            lemma_cut_off_behind_data(tail, m);
        }
    }
}

/// Decoding by sizes fails on a body that is cut off before its last size line is
/// complete, and never because of a size line.
proof fn lemma_cut_off_by_sizes(chunks: Seq<(Seq<u8>, Seq<u8>)>, last_line: Seq<u8>, k: int)
    requires
        well_formed_chunks(chunks),
        !last_line.contains(13u8),
        0 <= k < chunk_stream(chunks, last_line + crlf()).len(),
    ensures
        is_cut_off(chunk_stream(chunks, last_line + crlf()).take(k)),
    decreases chunks.len(),
{
    let end = last_line + crlf();
    if chunks.len() == 0 {
        lemma_no_line_break(last_line, end.take(k));
    } else {
        let line = chunks[0].0;
        let body = chunks[0].1;
        let before = line.len() + body.len() + 4;
        if k >= before {
            lemma_chunks_drop_first(chunks);
            lemma_cut_off_by_sizes(chunks.drop_first(), last_line, k - before);
        }
        lemma_cut_off_chunk(line, body, chunk_stream(chunks.drop_first(), end), k);
    }
}

/// What a line and its break give when cut off holds no line break.
proof fn lemma_no_line_break(line: Seq<u8>, cut: Seq<u8>)
    requires
        !line.contains(13u8),
        cut.len() < line.len() + 2,
        cut == (line + crlf()).take(cut.len() as int),
    ensures
        by_sizes(cut) == Err::<Seq<u8>, ChunkError>(ChunkError::MissingSizeLine),
{
    search::lemma_first_index(cut, crlf());
    if let Some(i) = search::first_index(cut, crlf()) {
        assert(cut.subrange(i, i + 2)[0] == 13u8);
        assert(cut[i] == (line + crlf())[i]);
        assert(line.contains(line[i]));
    }
}

/// A body that is cut off is never taken for a shorter one: as long as its last
/// size line is not complete, decoding fails; from there on, whatever is still
/// missing behind it, the whole payload is there.
pub proof fn law_cut_off_body_is_refused(
    chunks: Seq<(Seq<u8>, Seq<u8>)>,
    last_line: Seq<u8>,
    trailer: Seq<u8>,
    k: int,
)
    requires
        well_formed_chunks(chunks),
        !last_line.contains(13u8),
        announced_size(last_line) == Ok::<int, ChunkError>(0),
        0 <= k <= chunk_stream(chunks, last_line + crlf() + trailer).len(),
    ensures
        k < chunk_stream(chunks, last_line + crlf()).len() ==> dechunked(
            chunk_stream(chunks, last_line + crlf() + trailer).take(k),
        ) is Err,
        k >= chunk_stream(chunks, last_line + crlf()).len() ==> dechunked(
            chunk_stream(chunks, last_line + crlf() + trailer).take(k),
        ) == Ok::<Seq<u8>, ChunkError>(joined(chunks)),
{
    let end = last_line + crlf();
    let needed = chunk_stream(chunks, end);
    let full = chunk_stream(chunks, end + trailer);
    lemma_stream_end(chunks, end, trailer);
    if k < needed.len() {
        assert(full.take(k) =~= needed.take(k));
        lemma_cut_off_by_sizes(chunks, last_line, k);
    } else {
        let kept = trailer.take(k - needed.len());
        lemma_stream_end(chunks, end, kept);
        assert(full.take(k) =~= needed + kept);
        law_dechunk_inverts_chunking(chunks, last_line, kept);
    }
}

/// What follows the last chunk of a stream follows the stream.
proof fn lemma_stream_end(chunks: Seq<(Seq<u8>, Seq<u8>)>, end: Seq<u8>, more: Seq<u8>)
    ensures
        chunk_stream(chunks, end + more) == chunk_stream(chunks, end) + more,
    decreases chunks.len(),
{
    if chunks.len() > 0 {
        lemma_stream_end(chunks.drop_first(), end, more);
        assert(chunk_stream(chunks, end + more) =~= chunk_stream(chunks, end) + more);
    }
}

/// A hexadecimal numeral writes its number and holds hexadecimal digits only.
proof fn lemma_hex_numeral(n: nat)
    ensures
        text::digits_value(hex_numeral(n), 16) == Some(n as int),
        hex_numeral(n).len() > 0,
        forall|i: int|
            0 <= i < hex_numeral(n).len() ==> ('0' <= #[trigger] hex_numeral(n)[i] <= '9' || 'a' <= hex_numeral(n)[i]
                <= 'f'),
    decreases n,
{
    let s = hex_numeral(n);
    if n < 16 {
        assert(s.drop_last() =~= seq![]);
        assert(text::digits_value(s.drop_last(), 16) == Some(0int));
    } else {
        lemma_hex_numeral(n / 16);
        assert(s.drop_last() =~= hex_numeral(n / 16));
    }
}

/// A size line may be the plain hexadecimal numeral of the size.
pub proof fn law_hex_numeral_announces_size(n: nat)
    requires
        n <= usize::MAX,
    ensures
        announced_size(vstd::utf8::encode_utf8(hex_numeral(n))) == Ok::<int, ChunkError>(n as int),
        !vstd::utf8::encode_utf8(hex_numeral(n)).contains(13u8),
{
    let s = hex_numeral(n);
    let line = vstd::utf8::encode_utf8(s);
    lemma_hex_numeral(n);
    assert(vstd::utf8::is_ascii_chars(s)) by {
        assert forall|i: int| 0 <= i < s.len() implies '\0' <= #[trigger] s[i] <= '\u{7f}' by {}
    }
    vstd::utf8::is_ascii_chars_encode_utf8(s);
    vstd::utf8::encode_utf8_valid_utf8(s);
    vstd::utf8::encode_utf8_decode_utf8(s);
    assert forall|i: int| 0 <= i < line.len() implies line[i] != 13u8 && line[i] != 59u8 by {
        assert(line[i] == s[i] as u8);
    }
    search::lemma_first_index(line, seq![59u8]);
    assert(search::first_index(line, seq![59u8]) is None) by {
        if let Some(i) = search::first_index(line, seq![59u8]) {
            assert(line.subrange(i, i + 1)[0] == 59u8);
        }
    }
    assert(text::trim_start(s) == s);
    assert(text::trim(s) == s);
}

/// The body of a response is what stands behind its head: decoded where a header
/// says that it is chunked, and else as it is; and the status is the head's.
pub proof fn law_response_is_its_status_and_body(
    buf: Seq<u8>,
    length: int,
    code: u16,
    headers: Seq<(Seq<char>, Seq<u8>)>,
)
    requires
        0 <= length <= buf.len(),
    ensures
        !is_chunked(headers) ==> response_from(buf, Some(Some((length, Some(code), headers)))) == Ok::<
            (u16, Seq<u8>),
            ResponseError,
        >((code, buf.skip(length))),
        is_chunked(headers) ==> match dechunked(buf.skip(length)) {
            Ok(body) => response_from(buf, Some(Some((length, Some(code), headers)))) == Ok::<
                (u16, Seq<u8>),
                ResponseError,
            >((code, body)),
            Err(e) => response_from(buf, Some(Some((length, Some(code), headers)))) == Err::<
                (u16, Seq<u8>),
                ResponseError,
            >(ResponseError::Body(e)),
        },
        response_from(buf, None) == Err::<(u16, Seq<u8>), ResponseError>(ResponseError::Malformed),
        response_from(buf, Some(None)) == Err::<(u16, Seq<u8>), ResponseError>(ResponseError::Incomplete),
        response_from(buf, Some(Some((length, None, headers)))) == Err::<(u16, Seq<u8>), ResponseError>(
            ResponseError::MissingStatus,
        ),
{
}

/// A body is chunked exactly if one of the headers is a transfer encoding, in any
/// case, whose value holds `chunked`, in any case.
pub proof fn law_chunked_bodies_are_marked(headers: Seq<(Seq<char>, Seq<u8>)>)
    ensures
        is_chunked(headers) <==> exists|i: int, at: int|
            {
                &&& 0 <= i < headers.len()
                &&& text::same_but_case((#[trigger] headers[i]).0, "transfer-encoding"@)
                &&& #[trigger] holds_chunked_at(headers[i].1, at)
            },
{
    if is_chunked(headers) {
        let i = choose|i: int| 0 <= i < headers.len() && says_chunked(#[trigger] headers[i]);
        let value = headers[i].1;
        let lowered = value.map_values(|b: u8| lower_byte(b));
        let at = choose|at: int| search::occurs_at(lowered, chunked_token(), at);
        lemma_holds_chunked(value, at);
        assert(holds_chunked_at(headers[i].1, at));
    }
    if exists|i: int, at: int|
        {
            &&& 0 <= i < headers.len()
            &&& text::same_but_case((#[trigger] headers[i]).0, "transfer-encoding"@)
            &&& #[trigger] holds_chunked_at(headers[i].1, at)
        } {
        let (i, at) = choose|i: int, at: int|
            {
                &&& 0 <= i < headers.len()
                &&& text::same_but_case((#[trigger] headers[i]).0, "transfer-encoding"@)
                &&& #[trigger] holds_chunked_at(headers[i].1, at)
            };
        lemma_holds_chunked(headers[i].1, at);
        assert(says_chunked(headers[i]));
    }
}

/// Whether the word `chunked` stands at an index of a value, each of its letters
/// small or capital.
pub open spec fn holds_chunked_at(value: Seq<u8>, at: int) -> bool {
    &&& 0 <= at
    &&& at + 7 <= value.len()
    &&& value[at] == 99 || value[at] == 67
    &&& value[at + 1] == 104 || value[at + 1] == 72
    &&& value[at + 2] == 117 || value[at + 2] == 85
    &&& value[at + 3] == 110 || value[at + 3] == 78
    &&& value[at + 4] == 107 || value[at + 4] == 75
    &&& value[at + 5] == 101 || value[at + 5] == 69
    &&& value[at + 6] == 100 || value[at + 6] == 68
}

/// The word stands in a value exactly where it stands in the value's small letters.
proof fn lemma_holds_chunked(value: Seq<u8>, at: int)
    ensures
        holds_chunked_at(value, at) <==> search::occurs_at(
            value.map_values(|b: u8| lower_byte(b)),
            chunked_token(),
            at,
        ),
{
    let lowered = value.map_values(|b: u8| lower_byte(b));
    if 0 <= at && at + 7 <= value.len() {
        let part = lowered.subrange(at, at + 7);
        assert forall|k: int| 0 <= k < 7 implies #[trigger] part[k] == lower_byte(value[at + k]) by {}
        if holds_chunked_at(value, at) {
            assert(part =~= chunked_token());
        }
        if part == chunked_token() {
            assert(part[0] == 99 && part[1] == 104 && part[2] == 117 && part[3] == 110 && part[4] == 107 && part[5]
                == 101 && part[6] == 100);
            assert(lower_byte(value[at]) == 99);
        }
    }
}

/// Extensions do not change what a size line announces.
pub proof fn law_extensions_are_left_out(line: Seq<u8>, extension: Seq<u8>)
    requires
        !line.contains(59u8),
    ensures
        announced_size(line + seq![59u8] + extension) == announced_size(line),
{
    let longer = line + seq![59u8] + extension;
    let n = line.len() as int;
    assert(longer.subrange(n, n + 1) =~= seq![59u8]);
    assert forall|j: int| 0 <= j < n implies !search::occurs_at(longer, seq![59u8], j) by {
        if search::occurs_at(longer, seq![59u8], j) {
            assert(longer.subrange(j, j + 1)[0] == 59u8);
            assert(line[j] == 59u8);
        }
    }
    search::lemma_first_index_is(longer, seq![59u8], n);
    assert(longer.take(n) =~= line);
    search::lemma_first_index(line, seq![59u8]);
    if let Some(i) = search::first_index(line, seq![59u8]) {
        assert(line.subrange(i, i + 1)[0] == 59u8);
        assert(line[i] == 59u8);
    }
}

/// Where the sizes lead astray, nothing is decoded but two chunks that carry each
/// other's size, the second one byte longer than the first, and just those two.
pub proof fn law_only_swapped_sizes_are_put_right(data: Seq<u8>, payload: Seq<u8>)
    requires
        by_sizes(data) is Err,
        dechunked(data) == Ok::<Seq<u8>, ChunkError>(payload),
    ensures
        exists|one: Seq<u8>, first: Seq<u8>, two: Seq<u8>, second: Seq<u8>|
            {
                &&& data == #[trigger] spelled_pair(one, first, two, second)
                &&& payload == first + second
                &&& second.len() == first.len() + 1
                &&& announced_size(one) == Ok::<int, ChunkError>(second.len() as int)
                &&& announced_size(two) == Ok::<int, ChunkError>(first.len() as int)
            },
{
    let (one, behind_one) = cut_line(data)->0;
    let (first, behind_first) = cut_line(behind_one)->0;
    let (two, behind_two) = cut_line(behind_first)->0;
    let (second, behind_second) = cut_line(behind_two)->0;
    lemma_cut_line(data);
    lemma_cut_line(behind_one);
    lemma_cut_line(behind_first);
    lemma_cut_line(behind_two);
    assert(behind_second == closing_chunk());
    assert(data == spelled_pair(one, first, two, second));
}

/// Two chunks and the closing one as they stand in a body.
pub open spec fn spelled_pair(one: Seq<u8>, first: Seq<u8>, two: Seq<u8>, second: Seq<u8>) -> Seq<u8> {
    let end = seq![13u8, 10u8];
    one + end + (first + end + (two + end + (second + end + seq![48u8, 13u8, 10u8, 13u8, 10u8])))
}

/// Cutting a line off loses nothing but its break.
proof fn lemma_cut_line(data: Seq<u8>)
    ensures
        cut_line(data) matches Some((line, behind)) ==> data == line + seq![13u8, 10u8] + behind,
{
    search::lemma_first_index(data, crlf());
    if let Some(i) = search::first_index(data, crlf()) {
        assert(crlf() =~= seq![13u8, 10u8]);
        assert(data =~= data.take(i) + data.subrange(i, i + 2) + data.skip(i + 2));
    }
}

} // verus!
