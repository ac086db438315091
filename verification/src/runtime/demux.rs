//! De-multiplexing the stream of an attached container.
//!
//! The stream carries frames of standard output and standard error; the
//! payloads of both are cut into lines. Nothing here does any I/O: bytes come
//! in as they are read, and lines go out as they are completed.

use vstd::prelude::*;

use crate::search;
use crate::text;

verus! {

/// The stream type of a frame of standard output.
pub const STREAM_STDOUT: u8 = 1;

/// The stream type of a frame of standard error.
pub const STREAM_STDERR: u8 = 2;

/// The header of a stream frame.
#[derive(Debug, Clone, Copy)]
pub struct FrameHeader {
    pub stream_type: u8,
    pub size: usize,
}

/// The payload size that a frame header announces: its last four bytes, the
/// most significant first.
pub open spec fn announced_payload(buf: Seq<u8>) -> int {
    buf[4] as int * 0x100_0000 + buf[5] as int * 0x1_0000 + buf[6] as int * 0x100 + buf[7] as int
}

/// Parses one frame header from the start of `buf`, consuming nothing. There
/// is none as long as fewer than eight bytes are there.
pub fn parse_frame_header(buf: &[u8]) -> (out: Option<FrameHeader>)
    ensures
        match out {
            Some(header) => {
                &&& buf@.len() >= 8
                &&& header.stream_type == buf@[0]
                &&& header.size == announced_payload(buf@)
            },
            None => buf@.len() < 8,
        },
{
    if buf.len() < 8 {
        return None;
    }
    let size: u32 = (buf[4] as u32) * 0x100_0000 + (buf[5] as u32) * 0x1_0000 + (buf[6] as u32) * 0x100 + (
    buf[7] as u32);
    Some(FrameHeader { stream_type: buf[0], size: size as usize })
}

/// The byte that ends a line.
pub open spec fn newline() -> Seq<u8> {
    seq![10u8]
}

/// The completed lines of a byte stream, without the bytes that end them.
pub open spec fn lines_of(data: Seq<u8>) -> Seq<Seq<u8>>
    decreases data.len(),
{
    match search::first_index(data, newline()) {
        None => seq![],
        Some(i) => {
            proof {
                search::lemma_first_index(data, newline());
            }
            seq![data.take(i)] + lines_of(data.skip(i + 1))
        },
    }
}

/// What a byte stream holds after its last completed line.
pub open spec fn rest_of(data: Seq<u8>) -> Seq<u8>
    decreases data.len(),
{
    match search::first_index(data, newline()) {
        None => data,
        Some(i) => {
            proof {
                search::lemma_first_index(data, newline());
            }
            rest_of(data.skip(i + 1))
        },
    }
}

/// The text of a completed line: without a carriage return at its end, and
/// with invalid UTF-8 replaced.
pub open spec fn line_text(line: Seq<u8>) -> Seq<char> {
    text::shown(
        if line.len() > 0 && line.last() == 13u8 {
            line.drop_last()
        } else {
            line
        },
    )
}

/// The texts of completed lines.
pub open spec fn line_texts(lines: Seq<Seq<u8>>) -> Seq<Seq<char>> {
    lines.map_values(|line: Seq<u8>| line_text(line))
}

/// Whether texts report completed lines, one for one: a text encodes to the bytes
/// of its line where that is UTF-8, without a carriage return at its end.
pub open spec fn reports_whole_lines(lines: Seq<Seq<u8>>, reported: Seq<String>) -> bool {
    &&& reported.len() == lines.len()
    &&& forall|i: int|
        0 <= i < lines.len() && vstd::utf8::valid_utf8(#[trigger] lines[i]) ==> {
            let bytes = vstd::utf8::encode_utf8(reported[i]@);
            if lines[i].len() > 0 && lines[i].last() == 13u8 {
                bytes.push(13u8) == lines[i]
            } else {
                bytes == lines[i]
            }
        }
}

/// Texts that are those of completed lines report them whole.
proof fn lemma_reports_whole_lines(lines: Seq<Seq<u8>>, reported: Seq<String>)
    requires
        text::texts(reported) == line_texts(lines),
    ensures
        reports_whole_lines(lines, reported),
{
    assert(text::texts(reported).len() == reported.len());
    assert(line_texts(lines).len() == lines.len());
    assert forall|i: int| 0 <= i < lines.len() && vstd::utf8::valid_utf8(#[trigger] lines[i]) implies ({
        let bytes = vstd::utf8::encode_utf8(reported[i]@);
        if lines[i].len() > 0 && lines[i].last() == 13u8 {
            bytes.push(13u8) == lines[i]
        } else {
            bytes == lines[i]
        }
    }) by {
        law_line_is_reported_whole(lines[i]);
        assert(text::texts(reported)[i] == reported[i]@);
        assert(line_texts(lines)[i] == line_text(lines[i]));
    }
}

/// Buffers partial input and reports completed lines.
pub struct LineSplitter {
    buf: Vec<u8>,
}

impl View for LineSplitter {
    type V = Seq<u8>;

    /// The bytes of the line that is not completed yet.
    closed spec fn view(&self) -> Seq<u8> {
        self.buf@
    }
}

impl LineSplitter {
    /// What is buffered holds no end of a line.
    #[verifier::type_invariant]
    spec fn partial_line(self) -> bool {
        !self.buf@.contains(10u8)
    }

    /// An empty splitter.
    pub fn new() -> (out: Self)
        ensures
            out@ == Seq::<u8>::empty(),
    {
        LineSplitter { buf: Vec::new() }
    }

    /// Appends `data` and returns the lines that it completes.
    pub fn feed(&mut self, data: &[u8]) -> (lines: Vec<String>)
        ensures
            final(self)@ == rest_of(old(self)@ + data@),
            text::texts(lines@) == line_texts(lines_of(old(self)@ + data@)),
            reports_whole_lines(lines_of(old(self)@ + data@), lines@),
    {
        let ghost all = self.buf@ + data@;
        let end_of_line: [u8; 1] = [10u8];
        assert(end_of_line@ =~= newline());
        let mut work: Vec<u8> = Vec::new();
        std::mem::swap(&mut work, &mut self.buf);
        work.extend_from_slice(data);
        assert(work@ =~= all);
        let mut lines: Vec<String> = Vec::new();
        let mut start: usize = 0;
        let n: usize = work.len();
        assert(all.skip(0) =~= all);
        assert(text::texts(lines@) + line_texts(lines_of(all)) =~= line_texts(lines_of(all)));
        loop
            invariant
                start <= n == work@.len(),
                work@ == all,
                end_of_line@ == newline(),
                rest_of(all.skip(start as int)) == rest_of(all),
                text::texts(lines@) + line_texts(lines_of(all.skip(start as int))) == line_texts(lines_of(all)),
            ensures
                start <= n == work@.len(),
                work@ == all,
                all.skip(start as int) == rest_of(all),
                text::texts(lines@) == line_texts(lines_of(all)),
            decreases n - start,
        {
            let rest: &[u8] = vstd::slice::slice_subrange(work.as_slice(), start, n);
            assert(rest@ =~= all.skip(start as int));
            match search::find_bytes(rest, end_of_line.as_slice()) {
                None => {
                    assert(line_texts(lines_of(rest@)) =~= Seq::<Seq<char>>::empty());
                    assert(text::texts(lines@) + Seq::<Seq<char>>::empty() =~= text::texts(lines@));
                    break;
                },
                Some(pos) => {
                    let end: usize = if pos > 0 && rest[pos - 1] == 13u8 {
                        pos - 1
                    } else {
                        pos
                    };
                    let ghost line = rest@.take(pos as int);
                    let kept: &[u8] = vstd::slice::slice_subrange(rest, 0, end);
                    assert(kept@ =~= (if line.len() > 0 && line.last() == 13u8 {
                        line.drop_last()
                    } else {
                        line
                    }));
                    let ghost before = text::texts(lines@);
                    lines.push(text::shown_text(kept));
                    proof {
                        let tail = lines_of(rest@.skip(pos + 1));
                        assert(text::texts(lines@) =~= before.push(line_text(line)));
                        assert(lines_of(rest@) == seq![line] + tail);
                        assert(line_texts(seq![line] + tail) =~= seq![line_text(line)] + line_texts(tail));
                        assert(before + (seq![line_text(line)] + line_texts(tail)) =~= text::texts(lines@)
                            + line_texts(tail));
                        assert(rest@.skip(pos + 1) =~= all.skip(start + pos + 1));
                    }
                    start = start + pos + 1;
                },
            }
        }
        let left: &[u8] = vstd::slice::slice_subrange(work.as_slice(), start, n);
        assert(left@ =~= all.skip(start as int));
        proof {
            law_lines_keep_every_byte(all);
            lemma_reports_whole_lines(lines_of(all), lines@);
        }
        self.buf = vstd::slice::slice_to_vec(left);
        lines
    }
}

/// The first end of line stays first however the stream goes on.
proof fn lemma_first_newline_stays(a: Seq<u8>, b: Seq<u8>, i: int)
    requires
        search::first_index(a, newline()) == Some(i),
    ensures
        search::first_index(a + b, newline()) == Some(i),
        0 <= i < a.len(),
        (a + b).take(i) == a.take(i),
        (a + b).skip(i + 1) == a.skip(i + 1) + b,
{
    search::lemma_first_index(a, newline());
    let s = a + b;
    assert(s.subrange(i, i + 1) =~= a.subrange(i, i + 1));
    assert forall|j: int| 0 <= j < i implies !search::occurs_at(s, newline(), j) by {
        assert(s.subrange(j, j + 1) =~= a.subrange(j, j + 1));
        assert(!search::occurs_at(a, newline(), j));
    }
    search::lemma_first_index_is(s, newline(), i);
    assert(s.take(i) =~= a.take(i));
    assert(s.skip(i + 1) =~= a.skip(i + 1) + b);
}

/// Cutting a stream into pieces changes nothing: the lines that the whole
/// completes are those that its first piece completes, followed by those that
/// the second completes after what the first left over.
pub proof fn law_lines_of_pieces(a: Seq<u8>, b: Seq<u8>)
    ensures
        lines_of(a + b) == lines_of(a) + lines_of(rest_of(a) + b),
        rest_of(a + b) == rest_of(rest_of(a) + b),
    decreases a.len(),
{
    match search::first_index(a, newline()) {
        None => {
            assert(lines_of(a) + lines_of(a + b) =~= lines_of(a + b));
        },
        Some(i) => {
            lemma_first_newline_stays(a, b, i);
            law_lines_of_pieces(a.skip(i + 1), b);
            assert(lines_of(a + b) =~= lines_of(a) + lines_of(rest_of(a) + b));
        },
    }
}

/// A stream that holds no end of a line completes no line.
proof fn lemma_partial_line(data: Seq<u8>)
    requires
        !data.contains(10u8),
    ensures
        lines_of(data) == Seq::<Seq<u8>>::empty(),
        rest_of(data) == data,
{
    search::lemma_first_index(data, newline());
    if let Some(i) = search::first_index(data, newline()) {
        assert(data.subrange(i, i + 1)[0] == 10u8);
        assert(data[i] == 10u8);
    }
}

/// What completed lines were read from: each line with its end.
pub open spec fn unlines(lines: Seq<Seq<u8>>) -> Seq<u8>
    decreases lines.len(),
{
    if lines.len() == 0 {
        seq![]
    } else {
        lines[0] + newline() + unlines(lines.drop_first())
    }
}

/// No byte is lost or made up: the completed lines with their ends, followed
/// by what is left over, are the stream. Neither what is left over nor any of
/// the lines holds an end of a line.
pub proof fn law_lines_keep_every_byte(data: Seq<u8>)
    ensures
        unlines(lines_of(data)) + rest_of(data) == data,
        !rest_of(data).contains(10u8),
        forall|i: int| 0 <= i < lines_of(data).len() ==> !(#[trigger] lines_of(data)[i]).contains(10u8),
    decreases data.len(),
{
    search::lemma_first_index(data, newline());
    match search::first_index(data, newline()) {
        None => {
            assert(unlines(lines_of(data)) + rest_of(data) =~= data);
            if data.contains(10u8) {
                let i = choose|i: int| 0 <= i < data.len() && data[i] == 10u8;
                assert(data.subrange(i, i + 1) =~= newline());
                assert(search::occurs_at(data, newline(), i));
            }
        },
        Some(i) => {
            law_lines_keep_every_byte(data.skip(i + 1));
            let tail = lines_of(data.skip(i + 1));
            assert(lines_of(data).drop_first() =~= tail);
            assert forall|j: int| 0 <= j < lines_of(data).len() implies !(#[trigger] lines_of(data)[j]).contains(
                10u8,
            ) by {
                if j == 0 {
                    if data.take(i).contains(10u8) {
                        let k = choose|k: int| 0 <= k < data.take(i).len() && data.take(i)[k] == 10u8;
                        assert(data.subrange(k, k + 1) =~= newline());
                        assert(search::occurs_at(data, newline(), k));
                    }
                } else {
                    assert(lines_of(data)[j] == tail[j - 1]);
                }
            }
            assert(data.subrange(i, i + 1)[0] == 10u8);
            assert(data =~= data.take(i) + newline() + data.skip(i + 1));
            assert(unlines(lines_of(data)) + rest_of(data) =~= data.take(i) + newline() + (unlines(tail) + rest_of(
                data,
            )));
        },
    }
}

/// What ends in a character of a single byte is UTF-8 without it too.
proof fn lemma_valid_without_last(line: Seq<u8>)
    requires
        vstd::utf8::valid_utf8(line),
        line.len() > 0,
        line.last() <= 127u8,
    ensures
        vstd::utf8::valid_utf8(line.drop_last()),
{
    let n = line.len() - 1;
    vstd::utf8::is_char_boundary_iff_not_is_continuation_byte(line, n);
    assert(!vstd::utf8::is_continuation_byte(line[n]));
    vstd::utf8::valid_utf8_split(line, n);
    assert(line.subrange(0, n) =~= line.drop_last());
}

/// A line is reported whole: the text of a completed line that is UTF-8 encodes to
/// the bytes of the line, and where a carriage return ends it, to the bytes before
/// that one. Of a line that is not UTF-8 just as many bytes are shown.
pub proof fn law_line_is_reported_whole(line: Seq<u8>)
    ensures
        vstd::utf8::valid_utf8(line) && (line.len() == 0 || line.last() != 13u8) ==> vstd::utf8::encode_utf8(
            line_text(line),
        ) == line,
        vstd::utf8::valid_utf8(line) && line.len() > 0 && line.last() == 13u8 ==> vstd::utf8::encode_utf8(
            line_text(line),
        ).push(13u8) == line,
        !vstd::utf8::valid_utf8(line) && (line.len() == 0 || line.last() != 13u8) ==> line_text(line)
            == text::utf8_lossy(line),
        line.len() > 0 && line.last() == 13u8 && !vstd::utf8::valid_utf8(line.drop_last()) ==> line_text(line)
            == text::utf8_lossy(line.drop_last()),
{
    if vstd::utf8::valid_utf8(line) {
        if line.len() > 0 && line.last() == 13u8 {
            lemma_valid_without_last(line);
            vstd::utf8::decode_utf8_encode_utf8(line.drop_last());
            assert(line.drop_last().push(13u8) =~= line);
        } else {
            vstd::utf8::decode_utf8_encode_utf8(line);
        }
    }
}

/// Different lines are reported differently: two lines that are UTF-8, neither of
/// which a carriage return ends, have the same text only if they are the same.
pub proof fn law_different_lines_are_told_apart(a: Seq<u8>, b: Seq<u8>)
    requires
        vstd::utf8::valid_utf8(a),
        vstd::utf8::valid_utf8(b),
        a.len() == 0 || a.last() != 13u8,
        b.len() == 0 || b.last() != 13u8,
        line_text(a) == line_text(b),
    ensures
        a == b,
{
    law_line_is_reported_whole(a);
    law_line_is_reported_whole(b);
}

/// Every completed line is reported, blank ones too, one text for each and in
/// order, and what one line says does not depend on the others: reporting lines is
/// reporting the first ones and then the rest.
pub proof fn law_every_line_is_reported(a: Seq<Seq<u8>>, b: Seq<Seq<u8>>)
    ensures
        line_texts(a).len() == a.len(),
        line_texts(a + b) == line_texts(a) + line_texts(b),
        forall|i: int| 0 <= i < a.len() ==> line_texts(a)[i] == line_text(#[trigger] a[i]),
{
    assert(line_texts(a + b) =~= line_texts(a) + line_texts(b));
}

/// A text that is written line by line is read back line by line: whatever lines
/// are sent, each with its end, they are completed just so, and nothing is left
/// over.
pub proof fn law_lines_read_back(lines: Seq<Seq<u8>>)
    requires
        forall|i: int| 0 <= i < lines.len() ==> !(#[trigger] lines[i]).contains(10u8),
    ensures
        lines_of(unlines(lines)) == lines,
        rest_of(unlines(lines)) == Seq::<u8>::empty(),
    decreases lines.len(),
{
    if lines.len() == 0 {
        lemma_partial_line(unlines(lines));
        assert(lines =~= Seq::<Seq<u8>>::empty());
    } else {
        let first = lines[0];
        let others = lines.drop_first();
        let data = unlines(lines);
        let n = first.len() as int;
        assert forall|i: int| 0 <= i < others.len() implies !(#[trigger] others[i]).contains(10u8) by {
            assert(others[i] == lines[i + 1]);
        }
        law_lines_read_back(others);
        assert(data.subrange(n, n + 1) =~= newline());
        assert forall|j: int| 0 <= j < n implies !search::occurs_at(data, newline(), j) by {
            if search::occurs_at(data, newline(), j) {
                assert(data.subrange(j, j + 1)[0] == 10u8);
                assert(first[j] == 10u8);
            }
        }
        search::lemma_first_index_is(data, newline(), n);
        assert(data.take(n) =~= first);
        assert(data.skip(n + 1) =~= unlines(others));
        assert(lines_of(data) =~= lines);
    }
}

impl Default for LineSplitter {
    fn default() -> (out: Self)
        ensures
            out@ == Seq::<u8>::empty(),
    {
        LineSplitter::new()
    }
}

/// Whether a stream begins with a whole frame.
pub open spec fn begins_with_frame(data: Seq<u8>) -> bool {
    data.len() >= 8 && data.len() >= 8 + announced_payload(data)
}

/// The whole frames at the start of a stream: the stream type and the payload
/// of each.
pub open spec fn frames_of(data: Seq<u8>) -> Seq<(u8, Seq<u8>)>
    decreases data.len(),
{
    if begins_with_frame(data) {
        let end = 8 + announced_payload(data);
        seq![(data[0], data.subrange(8, end))] + frames_of(data.skip(end))
    } else {
        seq![]
    }
}

/// What a stream holds after its whole frames.
pub open spec fn after_frames(data: Seq<u8>) -> Seq<u8>
    decreases data.len(),
{
    if begins_with_frame(data) {
        after_frames(data.skip(8 + announced_payload(data)))
    } else {
        data
    }
}

/// The payload of a frame, where it belongs to the console.
pub open spec fn console_payload(frame: (u8, Seq<u8>)) -> Seq<u8> {
    if frame.0 == STREAM_STDOUT || frame.0 == STREAM_STDERR {
        frame.1
    } else {
        seq![]
    }
}

/// What frames carry of standard output and standard error, in order.
pub open spec fn console_bytes(frames: Seq<(u8, Seq<u8>)>) -> Seq<u8>
    decreases frames.len(),
{
    if frames.len() == 0 {
        seq![]
    } else {
        console_bytes(frames.drop_last()) + console_payload(frames.last())
    }
}

/// A frame on the wire.
pub open spec fn encoded_frame(frame: (u8, Seq<u8>)) -> Seq<u8> {
    let n = frame.1.len() as int;
    seq![
        frame.0,
        0u8,
        0u8,
        0u8,
        (n / 0x100_0000) as u8,
        (n / 0x1_0000 % 0x100) as u8,
        (n / 0x100 % 0x100) as u8,
        (n % 0x100) as u8,
    ] + frame.1
}

/// Frames on the wire, one after the other.
pub open spec fn encoded_frames(frames: Seq<(u8, Seq<u8>)>) -> Seq<u8>
    decreases frames.len(),
{
    if frames.len() == 0 {
        seq![]
    } else {
        encoded_frame(frames[0]) + encoded_frames(frames.drop_first())
    }
}

/// Reads console lines off the stream of an attached container.
pub struct OutputPump {
    pending: Vec<u8>,
    splitter: LineSplitter,
}

impl View for OutputPump {
    type V = (Seq<u8>, Seq<u8>);

    /// The bytes of the frame that is not whole yet, and those of the line
    /// that is not completed yet.
    closed spec fn view(&self) -> (Seq<u8>, Seq<u8>) {
        (self.pending@, self.splitter@)
    }
}

impl OutputPump {
    /// A pump that has read nothing.
    pub fn new() -> (out: Self)
        ensures
            out@ == (Seq::<u8>::empty(), Seq::<u8>::empty()),
    {
        OutputPump { pending: Vec::new(), splitter: LineSplitter::new() }
    }

    /// Takes in bytes of the stream and returns the console lines that they
    /// complete. Frames of other streams are passed over.
    pub fn feed(&mut self, data: &[u8]) -> (lines: Vec<String>)
        ensures
            final(self)@.0 == after_frames(old(self)@.0 + data@),
            final(self)@.1 == rest_of(old(self)@.1 + console_bytes(frames_of(old(self)@.0 + data@))),
            text::texts(lines@) == line_texts(
                lines_of(old(self)@.1 + console_bytes(frames_of(old(self)@.0 + data@))),
            ),
            reports_whole_lines(
                lines_of(old(self)@.1 + console_bytes(frames_of(old(self)@.0 + data@))),
                lines@,
            ),
    {
        let ghost all = self.pending@ + data@;
        let ghost partial = self.splitter@;
        self.pending.extend_from_slice(data);
        assert(self.pending@ =~= all);
        let n: usize = self.pending.len();
        let mut lines: Vec<String> = Vec::new();
        let mut start: usize = 0;
        let ghost mut seen: Seq<(u8, Seq<u8>)> = seq![];
        proof {
            use_type_invariant(&self.splitter);
            lemma_partial_line(partial);
            assert(all.skip(0) =~= all);
            assert(seen + frames_of(all) =~= frames_of(all));
            assert(partial + console_bytes(seen) =~= partial);
            assert(text::texts(lines@) =~= line_texts(lines_of(partial)));
        }
        loop
            invariant
                start <= n == self.pending@.len(),
                self.pending@ == all,
                seen + frames_of(all.skip(start as int)) == frames_of(all),
                after_frames(all.skip(start as int)) == after_frames(all),
                self.splitter@ == rest_of(partial + console_bytes(seen)),
                text::texts(lines@) == line_texts(lines_of(partial + console_bytes(seen))),
            ensures
                start <= n == self.pending@.len(),
                self.pending@ == all,
                seen == frames_of(all),
                all.skip(start as int) == after_frames(all),
                self.splitter@ == rest_of(partial + console_bytes(seen)),
                text::texts(lines@) == line_texts(lines_of(partial + console_bytes(seen))),
            decreases n - start,
        {
            let rest: &[u8] = vstd::slice::slice_subrange(self.pending.as_slice(), start, n);
            assert(rest@ =~= all.skip(start as int));
            let header: FrameHeader = match parse_frame_header(rest) {
                None => {
                    assert(seen + frames_of(rest@) =~= seen);
                    break;
                },
                Some(header) => header,
            };
            if rest.len() - 8 < header.size {
                assert(seen + frames_of(rest@) =~= seen);
                break;
            }
            let end: usize = 8 + header.size;
            let payload: &[u8] = vstd::slice::slice_subrange(rest, 8, end);
            let ghost frame = (rest@[0], payload@);
            let ghost more = seen.push(frame);
            proof {
                assert(payload@ =~= rest@.subrange(8, end as int));
                assert(frames_of(rest@) == seq![frame] + frames_of(rest@.skip(end as int)));
                assert(seen + (seq![frame] + frames_of(rest@.skip(end as int))) =~= more + frames_of(
                    rest@.skip(end as int),
                ));
                assert(more.drop_last() =~= seen);
                assert(rest@.skip(end as int) =~= all.skip(start + end));
                assert(partial + console_bytes(more) =~= (partial + console_bytes(seen)) + console_payload(frame));
            }
            if header.stream_type == STREAM_STDOUT || header.stream_type == STREAM_STDERR {
                let mut next: Vec<String> = self.splitter.feed(payload);
                let ghost before = text::texts(lines@);
                let ghost added = text::texts(next@);
                lines.append(&mut next);
                proof {
                    law_lines_of_pieces(partial + console_bytes(seen), payload@);
                    assert(text::texts(lines@) =~= before + added);
                    assert(line_texts(lines_of(partial + console_bytes(more))) =~= before + added);
                }
            } else {
                assert(partial + console_bytes(more) =~= partial + console_bytes(seen));
            }
            proof {
                seen = more;
            }
            start = start + end;
        }
        let left: &[u8] = vstd::slice::slice_subrange(self.pending.as_slice(), start, n);
        assert(left@ =~= all.skip(start as int));
        let kept: Vec<u8> = vstd::slice::slice_to_vec(left);
        self.pending = kept;
        proof {
            lemma_reports_whole_lines(lines_of(partial + console_bytes(frames_of(all))), lines@);
        }
        lines
    }
}

/// A frame that is whole stays the same frame however the stream goes on.
proof fn lemma_frame_stays(a: Seq<u8>, b: Seq<u8>)
    requires
        begins_with_frame(a),
    ensures
        begins_with_frame(a + b),
        announced_payload(a + b) == announced_payload(a),
        (a + b)[0] == a[0],
        (a + b).subrange(8, 8 + announced_payload(a)) == a.subrange(8, 8 + announced_payload(a)),
        (a + b).skip(8 + announced_payload(a)) == a.skip(8 + announced_payload(a)) + b,
{
    let end = 8 + announced_payload(a);
    assert((a + b).subrange(8, end) =~= a.subrange(8, end));
    assert((a + b).skip(end) =~= a.skip(end) + b);
}

/// Cutting the stream into pieces changes nothing: the frames of the whole are
/// those of the first piece, followed by those of the second after what the
/// first left over.
pub proof fn law_frames_of_pieces(a: Seq<u8>, b: Seq<u8>)
    ensures
        frames_of(a + b) == frames_of(a) + frames_of(after_frames(a) + b),
        after_frames(a + b) == after_frames(after_frames(a) + b),
    decreases a.len(),
{
    if begins_with_frame(a) {
        let end = 8 + announced_payload(a);
        lemma_frame_stays(a, b);
        law_frames_of_pieces(a.skip(end), b);
        assert(frames_of(a + b) =~= frames_of(a) + frames_of(after_frames(a) + b));
    } else {
        assert(frames_of(a) + frames_of(a + b) =~= frames_of(a + b));
    }
}

/// The console bytes of frames in a row are those of the first ones, followed
/// by those of the others.
pub proof fn lemma_console_bytes_concat(a: Seq<(u8, Seq<u8>)>, b: Seq<(u8, Seq<u8>)>)
    ensures
        console_bytes(a + b) == console_bytes(a) + console_bytes(b),
    decreases b.len(),
{
    if b.len() == 0 {
        assert(a + b =~= a);
        assert(console_bytes(a) + console_bytes(b) =~= console_bytes(a));
    } else {
        lemma_console_bytes_concat(a, b.drop_last());
        assert((a + b).drop_last() =~= a + b.drop_last());
        assert(console_bytes(a + b) =~= console_bytes(a) + console_bytes(b));
    }
}

/// Standard output and standard error both reach the console, each frame with its
/// whole payload, and frames of other streams with nothing. What frames carry is
/// what the first ones carry and then what the others do.
pub proof fn law_both_streams_reach_the_console(
    before: Seq<(u8, Seq<u8>)>,
    frame: (u8, Seq<u8>),
    after: Seq<(u8, Seq<u8>)>,
)
    ensures
        frame.0 == 1u8 || frame.0 == 2u8 ==> console_bytes(before + seq![frame] + after) == console_bytes(before)
            + frame.1 + console_bytes(after),
        frame.0 != 1u8 && frame.0 != 2u8 ==> console_bytes(before + seq![frame] + after) == console_bytes(before)
            + console_bytes(after),
        console_bytes(Seq::<(u8, Seq<u8>)>::empty()) == Seq::<u8>::empty(),
{
    lemma_console_bytes_concat(before + seq![frame], after);
    let more = before.push(frame);
    assert(before + seq![frame] =~= more);
    assert(more.drop_last() =~= before);
    assert(console_bytes(more) == console_bytes(before) + console_payload(frame));
    if frame.0 != 1u8 && frame.0 != 2u8 {
        assert(console_bytes(before) + Seq::<u8>::empty() =~= console_bytes(before));
    }
}

/// Whatever lines a container writes, cut into frames of either stream in any way,
/// they are the lines that the console completes, and nothing is left over.
pub proof fn law_console_shows_what_was_written(frames: Seq<(u8, Seq<u8>)>, lines: Seq<Seq<u8>>)
    requires
        forall|i: int| 0 <= i < frames.len() ==> (#[trigger] frames[i]).1.len() <= u32::MAX,
        forall|i: int| 0 <= i < lines.len() ==> !(#[trigger] lines[i]).contains(10u8),
        console_bytes(frames) == unlines(lines),
    ensures
        lines_of(console_bytes(frames_of(encoded_frames(frames)))) == lines,
        rest_of(console_bytes(frames_of(encoded_frames(frames)))) == Seq::<u8>::empty(),
        after_frames(encoded_frames(frames)) == Seq::<u8>::empty(),
{
    law_frames_read_back(frames);
    law_lines_read_back(lines);
}

/// A frame is read by its header alone: its first byte names the stream, its last
/// four tell the length with the most significant first, and those between do not
/// matter. What does not hold a whole frame yet is kept as it is.
pub proof fn law_frame_is_read_by_its_header(data: Seq<u8>)
    ensures
        data.len() < 8 ==> frames_of(data) == Seq::<(u8, Seq<u8>)>::empty() && after_frames(data) == data,
        data.len() >= 8 ==> ({
            let n = ((data[4] as int * 256 + data[5] as int) * 256 + data[6] as int) * 256 + data[7] as int;
            &&& data.len() < 8 + n ==> frames_of(data) == Seq::<(u8, Seq<u8>)>::empty() && after_frames(data) == data
            &&& data.len() >= 8 + n ==> {
                &&& frames_of(data) == seq![(data[0], data.subrange(8, 8 + n))] + frames_of(data.skip(8 + n))
                &&& after_frames(data) == after_frames(data.skip(8 + n))
            }
        }),
{
}

/// The console lines do not depend on how the stream arrives: feeding a pump
/// two pieces one after the other yields the lines that feeding it both at
/// once would, and leaves it in the same state.
pub proof fn law_console_lines_of_pieces(pending: Seq<u8>, partial: Seq<u8>, a: Seq<u8>, b: Seq<u8>)
    ensures
        ({
            let whole = console_bytes(frames_of(pending + (a + b)));
            let first = console_bytes(frames_of(pending + a));
            let pending_between = after_frames(pending + a);
            let partial_between = rest_of(partial + first);
            let second = console_bytes(frames_of(pending_between + b));
            &&& lines_of(partial + whole) == lines_of(partial + first) + lines_of(partial_between + second)
            &&& rest_of(partial + whole) == rest_of(partial_between + second)
            &&& after_frames(pending + (a + b)) == after_frames(pending_between + b)
        }),
{
    let whole = console_bytes(frames_of(pending + (a + b)));
    let first = console_bytes(frames_of(pending + a));
    let second = console_bytes(frames_of(after_frames(pending + a) + b));
    assert(pending + (a + b) =~= (pending + a) + b);
    law_frames_of_pieces(pending + a, b);
    lemma_console_bytes_concat(frames_of(pending + a), frames_of(after_frames(pending + a) + b));
    assert(partial + whole =~= (partial + first) + second);
    law_lines_of_pieces(partial + first, second);
}

/// De-multiplexing undoes multiplexing: frames written one after the other,
/// each no longer than its header can say, are read back as they were, and
/// nothing is left over.
pub proof fn law_frames_read_back(frames: Seq<(u8, Seq<u8>)>)
    requires
        forall|i: int| 0 <= i < frames.len() ==> (#[trigger] frames[i]).1.len() <= u32::MAX,
    ensures
        frames_of(encoded_frames(frames)) == frames,
        after_frames(encoded_frames(frames)) == Seq::<u8>::empty(),
    decreases frames.len(),
{
    if frames.len() > 0 {
        let frame = frames[0];
        let n = frame.1.len() as int;
        let tail = encoded_frames(frames.drop_first());
        let data = encoded_frames(frames);
        assert(announced_payload(data) == n) by {
            assert(data[4] as int == n / 0x100_0000);
            assert(data[5] as int == n / 0x1_0000 % 0x100);
            assert(data[6] as int == n / 0x100 % 0x100);
            assert(data[7] as int == n % 0x100);
        }
        assert(data.subrange(8, 8 + n) =~= frame.1);
        assert(data.skip(8 + n) =~= tail);
        assert forall|i: int| 0 <= i < frames.drop_first().len() implies (#[trigger] frames.drop_first()[i]).1.len()
            <= u32::MAX by {
            assert(frames.drop_first()[i] == frames[i + 1]);
        }
        law_frames_read_back(frames.drop_first());
        assert(frames_of(data) =~= frames);
    } else {
        assert(frames_of(encoded_frames(frames)) =~= frames);
    }
}

} // verus!
