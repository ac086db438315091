use sky_daemon::runtime::demux::{parse_frame_header, LineSplitter, OutputPump, STREAM_STDERR, STREAM_STDOUT};

fn frame(stream_type: u8, payload: &[u8]) -> Vec<u8> {
    let mut out = vec![stream_type, 0, 0, 0];
    out.extend_from_slice(&(payload.len() as u32).to_be_bytes());
    out.extend_from_slice(payload);
    out
}

#[test]
fn parse_frame_header_reads_type_and_size() {
    let buf = frame(STREAM_STDOUT, b"hello");
    let header = parse_frame_header(&buf).unwrap();
    assert_eq!(header.stream_type, STREAM_STDOUT);
    assert_eq!(header.size, 5);
}

#[test]
fn parse_frame_header_none_when_incomplete() {
    assert!(parse_frame_header(&[1, 2, 3]).is_none());
}

#[test]
fn line_splitter_yields_complete_lines() {
    let mut s = LineSplitter::new();
    let lines = s.feed(b"hello\nworld\n");
    assert_eq!(lines, vec!["hello", "world"]);
}

#[test]
fn line_splitter_handles_partial_line_across_feeds() {
    let mut s = LineSplitter::new();
    assert!(s.feed(b"hel").is_empty());
    assert_eq!(s.feed(b"lo\nwor"), vec!["hello"]);
    assert_eq!(s.feed(b"ld\n"), vec!["world"]);
}

#[test]
fn line_splitter_strips_carriage_return() {
    let mut s = LineSplitter::new();
    assert_eq!(s.feed(b"hello\r\n"), vec!["hello"]);
}

#[test]
fn pump_output_demuxes_leftover_and_streamed_frames() {
    let mut pump = OutputPump::new();
    assert_eq!(pump.feed(&frame(STREAM_STDOUT, b"hello\n")), vec!["hello"]);
    assert!(pump.feed(b"").is_empty());
}

#[test]
fn frame_sizes_are_big_endian() {
    let header = parse_frame_header(&[2, 0, 0, 0, 0x01, 0x02, 0x03, 0x04]).unwrap();
    assert_eq!(header.stream_type, STREAM_STDERR);
    assert_eq!(header.size, 0x0102_0304);
}

#[test]
fn cutting_a_stream_into_pieces_changes_no_line() {
    let data: &[u8] = b"one\r\ntwo\n\nthree\rfour\nfive";
    let mut whole = LineSplitter::new();
    let expected = whole.feed(data);
    assert_eq!(expected, vec!["one", "two", "", "three\rfour"]);
    for cut in 0..=data.len() {
        let mut s = LineSplitter::default();
        let mut lines = s.feed(&data[..cut]);
        lines.extend(s.feed(&data[cut..]));
        assert_eq!(lines, expected);
        assert_eq!(s.feed(b"\n"), vec!["five"]);
    }
}

#[test]
fn valid_text_comes_out_as_it_is() {
    let mut s = LineSplitter::new();
    assert_eq!(s.feed("größe: 3 €\n".as_bytes()), vec!["größe: 3 €"]);
}

#[test]
fn invalid_text_is_replaced() {
    let mut s = LineSplitter::new();
    assert_eq!(s.feed(b"a\xffb\n"), vec!["a\u{fffd}b"]);
}

#[test]
fn frames_arrive_in_any_pieces() {
    let mut data = frame(STREAM_STDOUT, b"hel");
    data.extend(frame(STREAM_STDERR, b"lo\nwor"));
    data.extend(frame(7, b"not console output\n"));
    data.extend(frame(STREAM_STDOUT, b"ld\n"));
    for cut in 0..=data.len() {
        let mut pump = OutputPump::new();
        let mut lines = pump.feed(&data[..cut]);
        lines.extend(pump.feed(&data[cut..]));
        assert_eq!(lines, vec!["hello", "world"]);
    }
}

#[test]
fn an_unfinished_frame_is_kept_back() {
    let data = frame(STREAM_STDOUT, b"line\n");
    let mut pump = OutputPump::new();
    assert!(pump.feed(&data[..data.len() - 1]).is_empty());
    assert_eq!(pump.feed(&data[data.len() - 1..]), vec!["line"]);
}
