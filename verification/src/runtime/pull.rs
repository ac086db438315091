//! Pulling an image: what the engine's reply means.
//!
//! A pull is answered with status 200 up front and a stream of JSON lines that
//! tell of its progress; a failure is reported in that stream.

use vstd::prelude::*;
use vstd::string::*;

use crate::runtime::demux;
use crate::runtime::docker;
use crate::search;
use crate::text;

verus! {

/// What one line of a pull's progress says of a failure.
#[derive(Debug, Clone)]
pub struct PullLine {
    /// The `error` of the line.
    pub error: Option<String>,
    /// The `message` of the line's `errorDetail`.
    pub detail: Option<String>,
}

/// Whether a byte is white space of ASCII.
pub open spec fn is_ascii_space(b: u8) -> bool {
    b == 32u8 || b == 9u8 || b == 10u8 || b == 12u8 || b == 13u8
}

/// Whether a line holds nothing but white space.
pub open spec fn is_blank(line: Seq<u8>) -> bool {
    forall|i: int| 0 <= i < line.len() ==> is_ascii_space(#[trigger] line[i])
}

/// A line as a list: none where it is blank.
pub open spec fn worded(line: Seq<u8>) -> Seq<Seq<u8>> {
    if is_blank(line) {
        seq![]
    } else {
        seq![line]
    }
}

/// The lines of a stream that are not blank, its unfinished last one too.
pub open spec fn worded_lines(body: Seq<u8>) -> Seq<Seq<u8>>
    decreases body.len(),
{
    match search::first_index(body, demux::newline()) {
        None => worded(body),
        Some(i) => {
            proof {
                search::lemma_first_index(body, demux::newline());
            }
            worded(body.take(i)) + worded_lines(body.skip(i + 1))
        },
    }
}

/// The failure that a line tells of: its error, or else the message of its
/// detail, as far as they are not empty. A line that could not be read tells
/// of none.
pub open spec fn line_error(line: Option<PullLine>) -> Option<Seq<char>> {
    match line {
        None => None,
        Some(line) => match (line.error, line.detail) {
            (Some(error), detail) => if error@.len() > 0 {
                Some(error@)
            } else {
                match detail {
                    Some(message) => if message@.len() > 0 {
                        Some(message@)
                    } else {
                        None
                    },
                    None => None,
                }
            },
            (None, Some(message)) => if message@.len() > 0 {
                Some(message@)
            } else {
                None
            },
            (None, None) => None,
        },
    }
}

/// The first failure that lines tell of.
pub open spec fn first_error(lines: Seq<Option<PullLine>>) -> Option<Seq<char>>
    decreases lines.len(),
{
    if lines.len() == 0 {
        None
    } else {
        match line_error(lines[0]) {
            Some(e) => Some(e),
            None => first_error(lines.drop_first()),
        }
    }
}

/// Whether `parse` may have read a line as `read`.
pub open spec fn reads_line<F: Fn(&[u8]) -> Option<PullLine>>(
    parse: F,
    line: Seq<u8>,
    read: Option<PullLine>,
) -> bool {
    exists|bytes: &[u8]| bytes@ == line && #[trigger] parse.ensures((bytes,), read)
}

/// Whether `parse` may have read the lines of a stream as `read`.
pub open spec fn reads_lines<F: Fn(&[u8]) -> Option<PullLine>>(
    parse: F,
    body: Seq<u8>,
    read: Seq<Option<PullLine>>,
) -> bool {
    &&& read.len() == worded_lines(body).len()
    &&& forall|i: int| 0 <= i < read.len() ==> reads_line(parse, worded_lines(body)[i], #[trigger] read[i])
}

/// Whether a line holds nothing but white space.
fn blank_line(line: &[u8]) -> (r: bool)
    ensures
        r == is_blank(line@),
{
    let mut i: usize = 0;
    while i < line.len()
        invariant
            i <= line@.len(),
            forall|j: int| 0 <= j < i ==> is_ascii_space(#[trigger] line@[j]),
        decreases line@.len() - i,
    {
        let b: u8 = line[i];
        if !(b == 32u8 || b == 9u8 || b == 10u8 || b == 12u8 || b == 13u8) {
            assert(!is_ascii_space(line@[i as int]));
            return false;
        }
        i = i + 1;
    }
    true
}

/// Reads each line of a stream that is not blank.
fn read_lines<F: Fn(&[u8]) -> Option<PullLine>>(body: &[u8], parse: &F) -> (out: Vec<Option<PullLine>>)
    requires
        forall|line: &[u8]| #[trigger] parse.requires((line,)),
    ensures
        reads_lines(*parse, body@, out@),
{
    let end_of_line: [u8; 1] = [10u8];
    assert(end_of_line@ =~= demux::newline());
    let mut out: Vec<Option<PullLine>> = Vec::new();
    let mut start: usize = 0;
    let n: usize = body.len();
    let ghost mut done: Seq<Seq<u8>> = seq![];
    assert(body@.skip(0) =~= body@);
    assert(done + worded_lines(body@) =~= worded_lines(body@));
    loop
        invariant_except_break
            start <= n == body@.len(),
            end_of_line@ == demux::newline(),
            forall|line: &[u8]| #[trigger] parse.requires((line,)),
            done + worded_lines(body@.skip(start as int)) == worded_lines(body@),
            out@.len() == done.len(),
            forall|i: int| 0 <= i < out@.len() ==> reads_line(*parse, done[i], #[trigger] out@[i]),
        ensures
            done == worded_lines(body@),
            out@.len() == done.len(),
            forall|i: int| 0 <= i < out@.len() ==> reads_line(*parse, done[i], #[trigger] out@[i]),
        decreases n - start,
    {
        let rest: &[u8] = vstd::slice::slice_subrange(body, start, n);
        assert(rest@ =~= body@.skip(start as int));
        let found: Option<usize> = search::find_bytes(rest, end_of_line.as_slice());
        let end: usize = match found {
            Some(pos) => pos,
            None => rest.len(),
        };
        let line: &[u8] = vstd::slice::slice_subrange(rest, 0, end);
        assert(line@ =~= rest@.take(end as int));
        assert(rest@.take(rest@.len() as int) =~= rest@);
        let ghost before = done;
        if !blank_line(line) {
            let read: Option<PullLine> = parse(line);
            assert(reads_line(*parse, line@, read)) by {
                assert(line@ == line@ && parse.ensures((line,), read));
            }
            proof {
                done = done.push(line@);
            }
            out.push(read);
        }
        assert(done =~= before + worded(line@));
        match found {
            None => {
                assert(before + worded(rest@) == worded_lines(body@));
                break;
            },
            Some(pos) => {
                assert(rest@.skip(pos + 1) =~= body@.skip(start + pos + 1));
                assert(before + (worded(line@) + worded_lines(rest@.skip(pos + 1))) =~= done + worded_lines(
                    rest@.skip(pos + 1),
                ));
                start = start + pos + 1;
            },
        }
    }
    out
}

/// The failure that a line tells of.
fn error_of(line: &Option<PullLine>) -> (out: Option<String>)
    ensures
        docker::text_model(out) == line_error(*line),
{
    match line {
        None => None,
        Some(line) => {
            if let Some(error) = &line.error {
                if !error.as_str().is_empty() {
                    return Some(error.clone());
                }
            }
            if let Some(message) = &line.detail {
                if !message.as_str().is_empty() {
                    return Some(message.clone());
                }
            }
            None
        },
    }
}

/// Finds the failure that a pull's progress tells of, if there is one. `parse`
/// reads one line.
pub fn extract_pull_error<F: Fn(&[u8]) -> Option<PullLine>>(body: &[u8], parse: F) -> (out: Option<String>)
    requires
        forall|line: &[u8]| #[trigger] parse.requires((line,)),
    ensures
        exists|read: Seq<Option<PullLine>>| #[trigger]
            reads_lines(parse, body@, read) && docker::text_model(out) == first_error(read),
{
    let lines: Vec<Option<PullLine>> = read_lines(body, &parse);
    first_pull_error(&lines)
}

/// Finds the first failure that lines tell of.
pub fn first_pull_error(lines: &Vec<Option<PullLine>>) -> (out: Option<String>)
    ensures
        docker::text_model(out) == first_error(lines@),
{
    let mut i: usize = 0;
    assert(lines@.skip(0) =~= lines@);
    while i < lines.len()
        invariant
            i <= lines@.len(),
            first_error(lines@) == first_error(lines@.skip(i as int)),
        decreases lines@.len() - i,
    {
        let found: Option<String> = error_of(&lines[i]);
        if found.is_some() {
            return found;
        }
        assert(lines@.skip(i as int).drop_first() =~= lines@.skip(i + 1));
        i = i + 1;
    }
    None
}

/// Whether a pull can be skipped: the engine answered the look-up of the image
/// with status 200. A look-up that failed counts as an image that is missing.
pub fn image_present(status: Option<u16>) -> (r: bool)
    ensures
        r == (status == Some(200u16)),
        r == is_present(status),
{
    match status {
        Some(status) => status == 200,
        None => false,
    }
}

/// Decides whether a pull succeeded: it was answered with status 200, and its
/// progress tells of no failure.
pub fn pull_outcome<F: Fn(&[u8]) -> Option<String>, G: Fn(&[u8]) -> Option<PullLine>>(
    image: &str,
    status: u16,
    body: &[u8],
    parse_error: F,
    parse_line: G,
) -> (out: Result<(), String>)
    requires
        parse_error.requires((body,)),
        forall|line: &[u8]| #[trigger] parse_line.requires((line,)),
    ensures
        status != 200 ==> {
            &&& out is Err
            &&& exists|said: Seq<char>| #[trigger]
                docker::says_error(parse_error, body, said) && out->Err_0@ == "pull image "@ + image@
                    + ": unexpected status "@ + text::decimal(status as nat) + ": "@ + said && pull_failure(
                    image@,
                    status,
                    said,
                    None,
                ) == Some(out->Err_0@)
        },
        status == 200 ==> exists|read: Seq<Option<PullLine>>| #[trigger]
            reads_lines(parse_line, body@, read) && (match first_error(read) {
                None => out is Ok,
                Some(e) => out is Err && out->Err_0@ == "pull image "@ + image@ + ": "@ + e,
            }) && pull_failure(image@, status, Seq::empty(), first_error(read)) == (match out {
                Ok(_) => None,
                Err(e) => Some(e@),
            }),
{
    if status != 200 {
        let said: String = docker::extract_docker_error(body, parse_error);
        let mut e: String = text::concat3("pull image ", image, ": unexpected status ");
        e.append(text::decimal_text(status as u64).as_str());
        e.append(": ");
        e.append(said.as_str());
        return Err(e);
    }
    match extract_pull_error(body, parse_line) {
        Some(said) => {
            let mut e: String = text::concat3("pull image ", image, ": ");
            e.append(said.as_str());
            Err(e)
        },
        None => Ok(()),
    }
}

/// The failure that a line tells of is its error, or else the message of its
/// detail; what is empty does not count, nor does a line that could not be read.
pub proof fn law_line_tells_its_error(line: PullLine)
    ensures
        line_error(None) is None,
        (line.error matches Some(e) && e@.len() > 0) ==> line_error(Some(line)) == Some(line.error->0@),
        !(line.error matches Some(e) && e@.len() > 0) && (line.detail matches Some(m) && m@.len() > 0) ==> line_error(
            Some(line),
        ) == Some(line.detail->0@),
        !(line.error matches Some(e) && e@.len() > 0) && !(line.detail matches Some(m) && m@.len() > 0) ==> line_error(
            Some(line),
        ) is None,
{
}

/// A pull fails exactly if some line of its progress tells of a failure, and it is
/// the first such line that counts.
pub proof fn law_first_failure_counts(lines: Seq<Option<PullLine>>, i: int)
    ensures
        0 <= i < lines.len() && line_error(lines[i]) is Some && (forall|j: int|
            0 <= j < i ==> line_error(#[trigger] lines[j]) is None) ==> first_error(lines) == line_error(lines[i]),
        first_error(lines) is None <==> forall|j: int| 0 <= j < lines.len() ==> line_error(#[trigger] lines[j]) is None,
    decreases lines.len(),
{
    if lines.len() > 0 {
        let rest = lines.drop_first();
        law_first_failure_counts(rest, i - 1);
        assert forall|j: int| 0 <= j < rest.len() implies #[trigger] rest[j] == lines[j + 1] by {}
        if line_error(lines[0]) is None {
            if 0 < i < lines.len() {
                assert(rest[i - 1] == lines[i]);
            }
            if forall|j: int| 0 <= j < rest.len() ==> line_error(#[trigger] rest[j]) is None {
                assert forall|j: int| 0 <= j < lines.len() implies line_error(#[trigger] lines[j]) is None by {
                    if j > 0 {
                        assert(rest[j - 1] == lines[j]);
                    }
                }
            }
        }
    }
}

/// Every line of a pull's progress is read, the unfinished last one too, but those
/// that hold nothing but white space.
pub proof fn law_every_worded_line_is_read(body: Seq<u8>)
    ensures
        worded_lines(body) == demux::lines_of(body).push(demux::rest_of(body)).filter(
            |line: Seq<u8>|
                !(forall|i: int|
                    0 <= i < line.len() ==> (#[trigger] line[i] == 32u8 || line[i] == 9u8 || line[i] == 10u8 || line[i]
                        == 12u8 || line[i] == 13u8)),
        ),
    decreases body.len(),
{
    reveal(Seq::filter);
    let kept = |line: Seq<u8>|
        !(forall|i: int|
            0 <= i < line.len() ==> (#[trigger] line[i] == 32u8 || line[i] == 9u8 || line[i] == 10u8 || line[i] == 12u8
                || line[i] == 13u8));
    let whole = demux::lines_of(body).push(demux::rest_of(body));
    match search::first_index(body, demux::newline()) {
        None => {
            assert(whole =~= seq![body]);
            lemma_single_line(body);
        },
        Some(i) => {
            search::lemma_first_index(body, demux::newline());
            let first = body.take(i);
            let next = body.skip(i + 1);
            law_every_worded_line_is_read(next);
            let others = demux::lines_of(next).push(demux::rest_of(next));
            assert(whole =~= seq![first] + others);
            Seq::filter_distributes_over_add(seq![first], others, kept);
            lemma_single_line(first);
        },
    }
}

/// A line alone is kept unless it is blank.
proof fn lemma_single_line(line: Seq<u8>)
    ensures
        worded(line) == seq![line].filter(
            |line: Seq<u8>|
                !(forall|i: int|
                    0 <= i < line.len() ==> (#[trigger] line[i] == 32u8 || line[i] == 9u8 || line[i] == 10u8 || line[i]
                        == 12u8 || line[i] == 13u8)),
        ),
{
    reveal(Seq::filter);
    let kept = |line: Seq<u8>|
        !(forall|i: int|
            0 <= i < line.len() ==> (#[trigger] line[i] == 32u8 || line[i] == 9u8 || line[i] == 10u8 || line[i] == 12u8
                || line[i] == 13u8));
    let list = seq![line];
    assert(list.drop_last() =~= Seq::<Seq<u8>>::empty());
    assert(list.drop_last().filter(kept) =~= Seq::<Seq<u8>>::empty());
    assert(list.last() == line);
    assert(kept(line) <==> !is_blank(line)) by {
        if is_blank(line) {
            assert forall|i: int| 0 <= i < line.len() implies (#[trigger] line[i] == 32u8 || line[i] == 9u8 || line[i]
                == 10u8 || line[i] == 12u8 || line[i] == 13u8) by {
                assert(is_ascii_space(line[i]));
            }
        }
    }
    assert(worded(line) =~= list.filter(kept));
}

/// What a pull fails over, given its status, what the engine says where that is not
/// 200, and the first failure that its progress tells of.
pub open spec fn pull_failure(image: Seq<char>, status: u16, said: Seq<char>, error: Option<Seq<char>>) -> Option<
    Seq<char>,
> {
    if status != 200 {
        Some("pull image "@ + image + ": unexpected status "@ + text::decimal(status as nat) + ": "@ + said)
    } else {
        match error {
            Some(e) => Some("pull image "@ + image + ": "@ + e),
            None => None,
        }
    }
}

/// A pull succeeds exactly if it is answered with status 200 and its progress tells
/// of no failure; a failure names the image and tells the whole error.
pub proof fn law_pull_succeeds_without_failures(
    image: Seq<char>,
    status: u16,
    said: Seq<char>,
    error: Option<Seq<char>>,
)
    ensures
        pull_failure(image, status, said, error) is None <==> status == 200 && error is None,
        status == 200 && error is Some ==> pull_failure(image, status, said, error) == Some(
            "pull image "@ + (image + ": "@ + error->0),
        ),
        status != 200 ==> pull_failure(image, status, said, error) == Some(
            "pull image "@ + (image + ": unexpected status "@ + text::decimal(status as nat) + ": "@ + said),
        ),
{
    if status == 200 && error is Some {
        assert("pull image "@ + image + ": "@ + error->0 =~= "pull image "@ + (image + ": "@ + error->0));
    }
    if status != 200 {
        assert("pull image "@ + image + ": unexpected status "@ + text::decimal(status as nat) + ": "@ + said
            =~= "pull image "@ + (image + ": unexpected status "@ + text::decimal(status as nat) + ": "@ + said));
    }
}

/// An image need not be pulled exactly where the engine has found it.
pub open spec fn is_present(status: Option<u16>) -> bool {
    status == Some(200u16)
}

/// An image counts as missing whenever the engine did not answer that it is there,
/// be it with another status or not at all.
pub proof fn law_only_found_images_are_present(status: u16)
    ensures
        is_present(Some(status)) <==> status == 200,
        !is_present(None),
{
}

} // verus!
