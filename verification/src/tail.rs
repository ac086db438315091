//! The last lines of a log, and the lines that are appended to it.

use std::collections::VecDeque;
use vstd::prelude::*;

use crate::runtime::demux;
use crate::search;
use crate::text;

verus! {

/// How many trailing lines are returned before a log is followed.
pub const DEFAULT_TAIL_LINES: usize = 200;

/// How often a log that is followed is looked at, in milliseconds.
pub const POLL_INTERVAL_MILLIS: u64 = 250;

/// A line without what ends it: a line feed, or a carriage return and a line
/// feed. A carriage return alone ends no line.
pub open spec fn stripped(line: Seq<char>) -> Seq<char> {
    if line.len() > 0 && line.last() == '\n' {
        without_return(line.drop_last())
    } else {
        line
    }
}

/// A text without a carriage return at its end.
pub open spec fn without_return(line: Seq<char>) -> Seq<char> {
    if line.len() > 0 && line.last() == '\r' {
        line.drop_last()
    } else {
        line
    }
}

/// Takes off what ends a line.
pub fn strip_newline(line: &mut String)
    ensures
        final(line)@ == stripped(old(line)@),
{
    let chars: Vec<char> = text::chars_of(line.as_str());
    let mut end: usize = chars.len();
    if end > 0 && chars[end - 1] == '\n' {
        end = end - 1;
        if end > 0 && chars[end - 1] == '\r' {
            end = end - 1;
        }
        *line = text::text_of(&chars, 0, end);
        assert(line@ =~= stripped(old(line)@));
    }
}

/// The last `n` of a list.
pub open spec fn last_of<T>(list: Seq<T>, n: int) -> Seq<T> {
    if list.len() <= n {
        list
    } else {
        list.skip(list.len() - n)
    }
}

/// The last lines that have been read, of which only so many are kept.
pub struct Window {
    lines: VecDeque<String>,
    size: usize,
}

impl Window {
    #[verifier::type_invariant]
    spec fn within_size(self) -> bool {
        self.lines@.len() <= self.size
    }

    /// How many lines are kept.
    pub closed spec fn size(&self) -> int {
        self.size as int
    }

    /// The lines that are kept, the oldest first.
    pub closed spec fn lines(&self) -> Seq<String> {
        self.lines@
    }

    /// An empty window for `n` lines.
    pub fn new(n: usize) -> (out: Self)
        ensures
            out.size() == n,
            out.lines() == Seq::<String>::empty(),
    {
        Window { lines: VecDeque::new(), size: n }
    }

    /// Adds a line, and drops the oldest one where the window is full.
    pub fn push(&mut self, line: String)
        ensures
            final(self).size() == old(self).size(),
            final(self).lines() == last_of(old(self).lines().push(line), old(self).size()),
            final(self).lines().len() <= old(self).size(),
    {
        proof {
            use_type_invariant(&*self);
        }
        let ghost before = self.lines@;
        let size: usize = self.size;
        let mut lines: VecDeque<String> = VecDeque::new();
        std::mem::swap(&mut lines, &mut self.lines);
        if lines.len() == size {
            let _ = lines.pop_front();
        }
        if size > 0 {
            lines.push_back(line);
        }
        assert(lines@ =~= last_of(before.push(line), size as int));
        self.lines = lines;
    }

    /// The lines that are kept, the oldest first.
    pub fn into_lines(self) -> (out: Vec<String>)
        ensures
            out@ == self.lines(),
    {
        let n: usize = self.lines.len();
        let mut out: Vec<String> = Vec::new();
        let mut i: usize = 0;
        while i < n
            invariant
                n == self.lines@.len(),
                i <= n,
                out@ == self.lines@.take(i as int),
            decreases n - i,
        {
            out.push(self.lines[i].clone());
            i = i + 1;
            assert(self.lines@.take(i as int) =~= self.lines@.take(i - 1).push(self.lines@[i - 1]));
        }
        assert(self.lines@.take(i as int) =~= self.lines@);
        out
    }
}

/// The lines of a log in bytes: the completed ones, and what follows them if
/// there is something.
pub open spec fn raw_lines(data: Seq<u8>) -> Seq<Seq<u8>> {
    let rest = demux::rest_of(data);
    if rest.len() == 0 {
        demux::lines_of(data)
    } else {
        demux::lines_of(data).push(rest)
    }
}

/// Whether all lines are UTF-8.
pub open spec fn all_text(lines: Seq<Seq<u8>>) -> bool {
    forall|i: int| 0 <= i < lines.len() ==> vstd::utf8::valid_utf8(#[trigger] lines[i])
}

/// The text of a completed line.
pub open spec fn completed_text(line: Seq<u8>) -> Seq<char> {
    without_return(vstd::utf8::decode_utf8(line))
}

/// The texts of completed lines.
pub open spec fn completed_texts(lines: Seq<Seq<u8>>) -> Seq<Seq<char>> {
    lines.map_values(|line: Seq<u8>| completed_text(line))
}

/// The texts of the lines of a log. The last one is as it stands where nothing
/// ends it.
pub open spec fn log_lines(data: Seq<u8>) -> Seq<Seq<char>> {
    let rest = demux::rest_of(data);
    let whole = completed_texts(demux::lines_of(data));
    if rest.len() == 0 {
        whole
    } else {
        whole.push(vstd::utf8::decode_utf8(rest))
    }
}

/// A log that is not UTF-8 throughout.
#[derive(Debug, Clone, Copy, PartialEq, Eq, Structural)]
pub struct NotText;

/// A line of a log, and where the next one starts.
struct Line {
    /// Its text without what ends it, if it is UTF-8.
    text: Option<String>,
    /// Whether something ends it.
    completed: bool,
    /// How many bytes it takes, its end included.
    length: usize,
}

/// Reads the line at the start of `rest`.
fn read_line(rest: &[u8]) -> (out: Line)
    requires
        rest@.len() > 0,
    ensures
        match search::first_index(rest@, demux::newline()) {
            Some(i) => {
                &&& out.completed
                &&& 0 <= i < rest@.len()
                &&& out.length == i + 1
                &&& out.text is Some <==> vstd::utf8::valid_utf8(rest@.take(i))
                &&& out.text matches Some(t) ==> t@ == completed_text(rest@.take(i))
            },
            None => {
                &&& !out.completed
                &&& out.length == rest@.len()
                &&& out.text is Some <==> vstd::utf8::valid_utf8(rest@)
                &&& out.text matches Some(t) ==> t@ == vstd::utf8::decode_utf8(rest@)
            },
        },
{
    let end_of_line: [u8; 1] = [10u8];
    assert(end_of_line@ =~= demux::newline());
    proof {
        search::lemma_first_index(rest@, demux::newline());
    }
    let n: usize = rest.len();
    match search::find_bytes(rest, end_of_line.as_slice()) {
        None => Line { text: text::utf8_text(rest), completed: false, length: n },
        Some(pos) => {
            proof {
                search::lemma_first_index_is(rest@, demux::newline(), pos as int);
            }
            let line: &[u8] = vstd::slice::slice_subrange(rest, 0, pos);
            assert(line@ =~= rest@.take(pos as int));
            let text: Option<String> = match text::utf8_text(line) {
                None => None,
                Some(t) => {
                    let chars: Vec<char> = text::chars_of(t.as_str());
                    let n: usize = chars.len();
                    let end: usize = if n > 0 && chars[n - 1] == '\r' {
                        n - 1
                    } else {
                        n
                    };
                    let kept: String = text::text_of(&chars, 0, end);
                    assert(kept@ =~= without_return(t@));
                    Some(kept)
                },
            };
            Line { text, completed: true, length: pos + 1 }
        },
    }
}

/// Taking the last of a list and one more is taking the last of the longer list.
proof fn lemma_last_of_push<T>(list: Seq<T>, x: T, n: int)
    requires
        0 <= n,
    ensures
        last_of(last_of(list, n).push(x), n) == last_of(list.push(x), n),
{
    assert(last_of(last_of(list, n).push(x), n) =~= last_of(list.push(x), n));
}

/// Returns the last `n` lines of a log, the oldest first. Only so many are ever
/// kept.
pub fn last_n_lines(data: &[u8], n: usize) -> (out: Result<Vec<String>, NotText>)
    ensures
        match out {
            Ok(lines) => {
                &&& all_text(raw_lines(data@))
                &&& text::texts(lines@) == last_of(log_lines(data@), n as int)
            },
            Err(_) => !all_text(raw_lines(data@)),
        },
{
    let mut window: Window = Window::new(n);
    let ghost mut raw: Seq<Seq<u8>> = seq![];
    let ghost mut read: Seq<Seq<char>> = seq![];
    let length: usize = data.len();
    let mut start: usize = 0;
    assert(data@.skip(0) =~= data@);
    assert(raw + raw_lines(data@) =~= raw_lines(data@));
    assert(read + log_lines(data@) =~= log_lines(data@));
    assert(text::texts(window.lines()) =~= last_of(read, n as int));
    while start < length
        invariant
            start <= length == data@.len(),
            window.size() == n,
            all_text(raw),
            raw + raw_lines(data@.skip(start as int)) == raw_lines(data@),
            read + log_lines(data@.skip(start as int)) == log_lines(data@),
            text::texts(window.lines()) == last_of(read, n as int),
        decreases length - start,
    {
        let rest: &[u8] = vstd::slice::slice_subrange(data, start, length);
        assert(rest@ =~= data@.skip(start as int));
        let line: Line = read_line(rest);
        let ghost next = rest@.skip(line.length as int);
        let ghost taken = if line.completed {
            rest@.take(line.length - 1)
        } else {
            rest@
        };
        proof {
            lemma_first_line(rest@);
            assert(next =~= data@.skip(start + line.length));
            assert(raw_lines(rest@)[0] == taken);
            assert(raw_lines(data@)[raw.len() as int] == taken);
        }
        match line.text {
            None => {
                return Err(NotText);
            },
            Some(t) => {
                let ghost before = text::texts(window.lines());
                let ghost kept = window.lines();
                proof {
                    lemma_last_of_push(read, t@, n as int);
                    assert(text::texts(kept.push(t)) =~= before.push(t@));
                    assert(text::texts(last_of(kept.push(t), n as int)) =~= last_of(
                        text::texts(kept.push(t)),
                        n as int,
                    ));
                    assert(raw + (seq![taken] + raw_lines(next)) =~= raw.push(taken) + raw_lines(next));
                    assert(read + (seq![t@] + log_lines(next)) =~= read.push(t@) + log_lines(next));
                    raw = raw.push(taken);
                    read = read.push(t@);
                }
                window.push(t);
            },
        }
        start = start + line.length;
    }
    proof {
        let end = data@.skip(start as int);
        assert(end =~= Seq::<u8>::empty());
        lemma_no_line(end);
        assert(raw + raw_lines(end) =~= raw);
        assert(read + log_lines(end) =~= read);
    }
    Ok(window.into_lines())
}

/// An empty log has no lines.
proof fn lemma_no_line(data: Seq<u8>)
    requires
        data.len() == 0,
    ensures
        raw_lines(data) == Seq::<Seq<u8>>::empty(),
        log_lines(data) == Seq::<Seq<char>>::empty(),
        demux::lines_of(data) == Seq::<Seq<u8>>::empty(),
        demux::rest_of(data) == data,
{
    search::lemma_first_index(data, demux::newline());
    assert(search::first_index(data, demux::newline()) is None);
    assert(completed_texts(demux::lines_of(data)) =~= Seq::<Seq<char>>::empty());
}

/// The lines of a log are its first line and those of what follows it.
proof fn lemma_first_line(data: Seq<u8>)
    requires
        data.len() > 0,
    ensures
        match search::first_index(data, demux::newline()) {
            Some(i) => {
                &&& 0 <= i < data.len()
                &&& raw_lines(data) == seq![data.take(i)] + raw_lines(data.skip(i + 1))
                &&& log_lines(data) == seq![completed_text(data.take(i))] + log_lines(data.skip(i + 1))
            },
            None => {
                &&& raw_lines(data) == seq![data] + raw_lines(data.skip(data.len() as int))
                &&& log_lines(data) == seq![vstd::utf8::decode_utf8(data)] + log_lines(
                    data.skip(data.len() as int),
                )
            },
        },
{
    search::lemma_first_index(data, demux::newline());
    match search::first_index(data, demux::newline()) {
        Some(i) => {
            let line = data.take(i);
            let next = data.skip(i + 1);
            let tail = demux::lines_of(next);
            assert(completed_texts(seq![line] + tail) =~= seq![completed_text(line)] + completed_texts(tail));
            assert(raw_lines(data) =~= seq![line] + raw_lines(next));
            assert(log_lines(data) =~= seq![completed_text(line)] + log_lines(next));
        },
        None => {
            let end = data.skip(data.len() as int);
            lemma_no_line(end);
            assert(completed_texts(demux::lines_of(data)) =~= Seq::<Seq<char>>::empty());
            assert(raw_lines(data) =~= seq![data] + raw_lines(end));
            assert(log_lines(data) =~= seq![vstd::utf8::decode_utf8(data)] + log_lines(end));
        },
    }
}

/// What to do about a log that is followed.
#[derive(Debug, Clone, Copy, PartialEq, Eq, Structural)]
pub enum FollowStep {
    /// The log has disappeared.
    Stop,
    /// Nothing has been appended.
    Wait,
    /// Read from this position to the end.
    ReadFrom(u64),
}

/// A log that is followed.
#[derive(Debug, Clone, Copy)]
pub struct Follower {
    /// Up to where lines have been reported.
    pub pos: u64,
}

/// The completed lines up to the first that is not UTF-8.
pub open spec fn readable(lines: Seq<Seq<u8>>) -> Seq<Seq<u8>>
    decreases lines.len(),
{
    if lines.len() == 0 || !vstd::utf8::valid_utf8(lines[0]) {
        seq![]
    } else {
        seq![lines[0]] + readable(lines.drop_first())
    }
}

/// How many bytes completed lines take, their ends included.
pub open spec fn bytes_of(lines: Seq<Seq<u8>>) -> int {
    demux::unlines(lines).len() as int
}

impl Follower {
    /// Follows a log from its end.
    pub fn new(length: u64) -> (out: Self)
        ensures
            out.pos == length,
    {
        Follower { pos: length }
    }

    /// Decides what to do, given how long the log is. One that has become
    /// shorter was truncated or replaced, and is read from its start.
    pub fn on_poll(&mut self, length: Option<u64>) -> (step: FollowStep)
        ensures
            (final(self).pos, step) == polled(old(self).pos, length),
            match length {
                None => step == FollowStep::Stop && *final(self) == *old(self),
                Some(n) => {
                    &&& final(self).pos == (if n < old(self).pos {
                        0
                    } else {
                        old(self).pos
                    })
                    &&& step == (if n == final(self).pos {
                        FollowStep::Wait
                    } else {
                        FollowStep::ReadFrom(final(self).pos)
                    })
                },
            },
    {
        match length {
            None => FollowStep::Stop,
            Some(n) => {
                if n < self.pos {
                    self.pos = 0;
                }
                if n == self.pos {
                    FollowStep::Wait
                } else {
                    FollowStep::ReadFrom(self.pos)
                }
            },
        }
    }

    /// Reports the lines that the bytes from the last position on complete. A
    /// line that nothing ends yet is left for the next time, whatever there is of
    /// it. The second part of the result tells whether every completed line is
    /// UTF-8; one that is not ends the following.
    pub fn on_data(&mut self, data: &[u8]) -> (out: (Vec<String>, bool))
        requires
            old(self).pos + data@.len() <= u64::MAX,
        ensures
            out.1 == all_text(demux::lines_of(data@)),
            text::texts(out.0@) == completed_texts(readable(demux::lines_of(data@))),
            final(self).pos == old(self).pos + bytes_of(readable(demux::lines_of(data@))),
            final(self).pos == reported_to(old(self).pos as int, data@),
            out.1 ==> readable(demux::lines_of(data@)) == demux::lines_of(data@),
    {
        let mut lines: Vec<String> = Vec::new();
        let ghost mut raw: Seq<Seq<u8>> = seq![];
        let length: usize = data.len();
        let mut start: usize = 0;
        assert(data@.skip(0) =~= data@);
        assert(raw + demux::lines_of(data@) =~= demux::lines_of(data@));
        assert(raw + readable(demux::lines_of(data@)) =~= readable(demux::lines_of(data@)));
        assert(text::texts(lines@) =~= completed_texts(raw));
        while start < length
            invariant
                start <= length == data@.len(),
                self.pos == old(self).pos + start,
                old(self).pos + data@.len() <= u64::MAX,
                start == bytes_of(raw),
                all_text(raw),
                raw + demux::lines_of(data@.skip(start as int)) == demux::lines_of(data@),
                raw + readable(demux::lines_of(data@.skip(start as int))) == readable(demux::lines_of(data@)),
                text::texts(lines@) == completed_texts(raw),
            decreases length - start,
        {
            let rest: &[u8] = vstd::slice::slice_subrange(data, start, length);
            assert(rest@ =~= data@.skip(start as int));
            let line: Line = read_line(rest);
            if !line.completed {
                proof {
                    assert(demux::lines_of(rest@) =~= Seq::<Seq<u8>>::empty());
                    assert(raw + Seq::<Seq<u8>>::empty() =~= raw);
                }
                return (lines, true);
            }
            let ghost next = rest@.skip(line.length as int);
            let ghost taken = rest@.take(line.length - 1);
            let ghost tail = demux::lines_of(next);
            proof {
                lemma_first_line(rest@);
                assert(next =~= data@.skip(start + line.length));
                assert(demux::lines_of(rest@) == seq![taken] + tail);
                assert((seq![taken] + tail).drop_first() =~= tail);
                assert((seq![taken] + tail)[0] == taken);
                assert(demux::lines_of(data@)[raw.len() as int] == taken);
            }
            match line.text {
                None => {
                    proof {
                        assert(readable(demux::lines_of(rest@)) =~= Seq::<Seq<u8>>::empty());
                        assert(raw + Seq::<Seq<u8>>::empty() =~= raw);
                    }
                    return (lines, false);
                },
                Some(t) => {
                    proof {
                        assert(raw + (seq![taken] + tail) =~= raw.push(taken) + tail);
                        assert(raw + (seq![taken] + readable(tail)) =~= raw.push(taken) + readable(tail));
                        assert(completed_texts(raw.push(taken)) =~= completed_texts(raw).push(
                            completed_text(taken),
                        ));
                        lemma_bytes_of_push(raw, taken);
                        raw = raw.push(taken);
                    }
                    let ghost before = text::texts(lines@);
                    lines.push(t);
                    assert(text::texts(lines@) =~= before.push(t@));
                },
            }
            start = start + line.length;
            self.pos = self.pos + line.length as u64;
        }
        proof {
            let end = data@.skip(start as int);
            assert(end =~= Seq::<u8>::empty());
            lemma_no_line(end);
            assert(raw + Seq::<Seq<u8>>::empty() =~= raw);
        }
        (lines, true)
    }
}

/// One more line takes its bytes and one for its end.
proof fn lemma_bytes_of_push(lines: Seq<Seq<u8>>, line: Seq<u8>)
    ensures
        bytes_of(lines.push(line)) == bytes_of(lines) + line.len() + 1,
    decreases lines.len(),
{
    let longer = lines.push(line);
    if lines.len() == 0 {
        assert(longer.drop_first() =~= Seq::<Seq<u8>>::empty());
        assert(demux::unlines(longer.drop_first()) =~= Seq::<u8>::empty());
    } else {
        assert(longer.drop_first() =~= lines.drop_first().push(line));
        lemma_bytes_of_push(lines.drop_first(), line);
    }
}

/// Following a log in pieces reports what reading it at once would: the lines
/// that a log completes once something has been appended are those that it
/// completed before, followed by those that come of the bytes from the last
/// position on. That holds wherever the pieces are cut, inside a character too:
/// all lines are UTF-8 at once exactly if they are in each piece.
pub proof fn law_following_misses_nothing(before: Seq<u8>, appended: Seq<u8>)
    ensures
        demux::lines_of(before + appended) == demux::lines_of(before) + demux::lines_of(
            (before + appended).skip(bytes_of(demux::lines_of(before))),
        ),
        all_text(demux::lines_of(before + appended)) <==> all_text(demux::lines_of(before)) && all_text(
            demux::lines_of((before + appended).skip(bytes_of(demux::lines_of(before)))),
        ),
{
    demux::law_lines_of_pieces(before, appended);
    demux::law_lines_keep_every_byte(before);
    let done = demux::unlines(demux::lines_of(before));
    assert(before + appended =~= done + (demux::rest_of(before) + appended));
    assert((before + appended).skip(done.len() as int) =~= demux::rest_of(before) + appended);
    lemma_all_text_of_concat(
        demux::lines_of(before),
        demux::lines_of((before + appended).skip(bytes_of(demux::lines_of(before)))),
    );
}

/// The lines of two stretches are UTF-8 exactly if those of each are.
proof fn lemma_all_text_of_concat(a: Seq<Seq<u8>>, b: Seq<Seq<u8>>)
    ensures
        all_text(a + b) <==> all_text(a) && all_text(b),
{
    if all_text(a + b) {
        assert forall|i: int| 0 <= i < a.len() implies #[trigger] vstd::utf8::valid_utf8(a[i]) by {
            assert((a + b)[i] == a[i]);
        }
        assert forall|i: int| 0 <= i < b.len() implies #[trigger] vstd::utf8::valid_utf8(b[i]) by {
            assert((a + b)[a.len() + i] == b[i]);
        }
    }
}

/// The last of a list are its end: as many as are asked for, or all where there are
/// fewer, in order.
pub proof fn law_last_of_is_the_end<T>(list: Seq<T>, n: int)
    requires
        0 <= n,
    ensures
        last_of(list, n).len() == (if list.len() <= n {
            list.len() as int
        } else {
            n
        }),
        list == list.take(list.len() - last_of(list, n).len()) + last_of(list, n),
{
    assert(list =~= list.take(list.len() - last_of(list, n).len()) + last_of(list, n));
}

/// What ends a line is taken off once: a line feed, with a carriage return before
/// it if there is one. Without a line feed a line stays as it is.
pub proof fn law_line_ends_are_taken_off(line: Seq<char>)
    ensures
        stripped(line.push('\r').push('\n')) == line,
        line.len() == 0 || line.last() != '\r' ==> stripped(line.push('\n')) == line,
        line.len() == 0 || line.last() != '\n' ==> stripped(line) == line,
{
    assert(line.push('\r').push('\n').drop_last() =~= line.push('\r'));
    assert(line.push('\r').drop_last() =~= line);
    assert(line.push('\n').drop_last() =~= line);
}

/// Encoding texts in a row is encoding one after the other.
proof fn lemma_encode_concat(a: Seq<char>, b: Seq<char>)
    ensures
        vstd::utf8::encode_utf8(a + b) == vstd::utf8::encode_utf8(a) + vstd::utf8::encode_utf8(b),
    decreases a.len(),
{
    if a.len() == 0 {
        assert(a + b =~= b);
        assert(vstd::utf8::encode_utf8(a) + vstd::utf8::encode_utf8(b) =~= vstd::utf8::encode_utf8(b));
    } else {
        assert((a + b).drop_first() =~= a.drop_first() + b);
        lemma_encode_concat(a.drop_first(), b);
        assert(vstd::utf8::encode_utf8(a + b) =~= vstd::utf8::encode_utf8(a) + vstd::utf8::encode_utf8(b));
    }
}

/// A carriage return is one byte.
proof fn lemma_encode_return()
    ensures
        vstd::utf8::encode_utf8(seq!['\r']) == seq![13u8],
{
    let s = seq!['\r'];
    assert(vstd::utf8::is_ascii_chars(s));
    vstd::utf8::is_ascii_chars_encode_utf8(s);
    assert(s[0] as u8 == 13u8);
    assert(vstd::utf8::encode_utf8(s) =~= seq![13u8]);
}

/// A completed line of a log is told whole: its text encodes to the bytes of the
/// line, and where a carriage return ends it, to the bytes before that one.
pub proof fn law_log_line_is_told_whole(line: Seq<u8>)
    requires
        vstd::utf8::valid_utf8(line),
    ensures
        line.len() == 0 || line.last() != 13u8 ==> vstd::utf8::encode_utf8(completed_text(line)) == line,
        line.len() > 0 && line.last() == 13u8 ==> vstd::utf8::encode_utf8(completed_text(line)).push(13u8) == line,
{
    let text = vstd::utf8::decode_utf8(line);
    vstd::utf8::decode_utf8_encode_utf8(line);
    lemma_encode_return();
    if text.len() > 0 && text.last() == '\r' {
        let bare = text.drop_last();
        assert(text =~= bare + seq!['\r']);
        lemma_encode_concat(bare, seq!['\r']);
        assert(line =~= vstd::utf8::encode_utf8(bare).push(13u8));
        assert(line.last() == 13u8);
    } else if line.len() > 0 && line.last() == 13u8 {
        let n = line.len() - 1;
        vstd::utf8::is_char_boundary_iff_not_is_continuation_byte(line, n);
        assert(!vstd::utf8::is_continuation_byte(line[n]));
        vstd::utf8::decode_utf8_split(line, n);
        vstd::utf8::valid_utf8_split(line, n);
        let end = line.subrange(n, line.len() as int);
        assert(end =~= seq![13u8]);
        vstd::utf8::encode_utf8_decode_utf8(seq!['\r']);
        assert(vstd::utf8::decode_utf8(end) == seq!['\r']);
        let front = vstd::utf8::decode_utf8(line.subrange(0, n));
        assert(text =~= front + seq!['\r']);
        assert(text.last() == '\r');
    }
}

/// Every line of a log is told, each on its own; the last one, where nothing ends
/// it, as it stands.
pub proof fn law_every_line_of_a_log_is_told(data: Seq<u8>, i: int)
    ensures
        log_lines(data).len() == raw_lines(data).len(),
        raw_lines(data).len() == demux::lines_of(data).len() + (if demux::rest_of(data).len() > 0 {
            1int
        } else {
            0
        }),
        0 <= i < demux::lines_of(data).len() ==> log_lines(data)[i] == completed_text(demux::lines_of(data)[i])
            && raw_lines(data)[i] == demux::lines_of(data)[i],
        demux::rest_of(data).len() > 0 && vstd::utf8::valid_utf8(demux::rest_of(data)) ==> vstd::utf8::encode_utf8(
            log_lines(data).last(),
        ) == demux::rest_of(data),
        demux::rest_of(data).len() > 0 ==> raw_lines(data).last() == demux::rest_of(data),
{
    if vstd::utf8::valid_utf8(demux::rest_of(data)) {
        vstd::utf8::decode_utf8_encode_utf8(demux::rest_of(data));
    }
}

/// The lines that are reported of a log are the first ones, all of them UTF-8, up
/// to the first that is not.
pub proof fn law_lines_are_reported_up_to_the_first_that_is_no_text(lines: Seq<Seq<u8>>)
    ensures
        readable(lines).is_prefix_of(lines),
        all_text(readable(lines)),
        readable(lines).len() < lines.len() ==> !vstd::utf8::valid_utf8(lines[readable(lines).len() as int]),
    decreases lines.len(),
{
    if lines.len() > 0 && vstd::utf8::valid_utf8(lines[0]) {
        let rest = lines.drop_first();
        let kept = readable(rest);
        law_lines_are_reported_up_to_the_first_that_is_no_text(rest);
        let all = readable(lines);
        assert(all == seq![lines[0]] + kept);
        assert(kept =~= rest.take(kept.len() as int));
        assert(all =~= lines.take(all.len() as int));
        assert forall|i: int| 0 <= i < all.len() implies vstd::utf8::valid_utf8(#[trigger] all[i]) by {
            if i > 0 {
                assert(all[i] == kept[i - 1]);
            }
        }
        if kept.len() < rest.len() {
            assert(rest[kept.len() as int] == lines[all.len() as int]);
        }
    }
}

/// Where a log is read from next and what to do about it, given up to where it was
/// reported and how long it is now.
pub open spec fn polled(pos: u64, length: Option<u64>) -> (u64, FollowStep) {
    match length {
        None => (pos, FollowStep::Stop),
        Some(n) => {
            let from = if n < pos {
                0
            } else {
                pos
            };
            (
                from,
                if n == from {
                    FollowStep::Wait
                } else {
                    FollowStep::ReadFrom(from)
                },
            )
        },
    }
}

/// A log is followed as long as it is there: what was appended is read from where
/// reporting ended, a log that became shorter from its start, and nothing is read
/// where nothing is new.
pub proof fn law_what_is_new_is_read(pos: u64, n: u64)
    ensures
        polled(pos, None).1 == FollowStep::Stop,
        polled(pos, Some(n)).1 != FollowStep::Stop,
        n > pos ==> polled(pos, Some(n)) == (pos, FollowStep::ReadFrom(pos)),
        n == pos ==> polled(pos, Some(n)) == (pos, FollowStep::Wait),
        0 < n < pos ==> polled(pos, Some(n)) == (0u64, FollowStep::ReadFrom(0)),
        0 == n < pos ==> polled(pos, Some(n)) == (0u64, FollowStep::Wait),
{
}

/// Up to where a log is reported once bytes from the last position on have been
/// read.
pub open spec fn reported_to(pos: int, data: Seq<u8>) -> int {
    pos + bytes_of(readable(demux::lines_of(data)))
}

/// Following goes on just behind the last line that was completed: between that
/// position and the end of what was read lies what no end of a line completes yet,
/// so that nothing is left out and nothing is reported twice.
pub proof fn law_following_goes_on_behind_the_last_line(pos: int, data: Seq<u8>)
    requires
        all_text(demux::lines_of(data)),
    ensures
        reported_to(pos, data) + demux::rest_of(data).len() == pos + data.len(),
        data.skip(reported_to(0, data)) == demux::rest_of(data),
{
    let lines = demux::lines_of(data);
    law_lines_are_reported_up_to_the_first_that_is_no_text(lines);
    assert(readable(lines) =~= lines);
    demux::law_lines_keep_every_byte(data);
    let whole = demux::unlines(lines);
    assert(data =~= whole + demux::rest_of(data));
    assert(data.skip(whole.len() as int) =~= demux::rest_of(data));
}

} // verus!
