use sky_daemon::tail::{last_n_lines, strip_newline, FollowStep, Follower, NotText, Window, DEFAULT_TAIL_LINES};

#[test]
fn returns_all_lines_when_fewer_than_n() {
    let data = "one\ntwo\nthree\n";
    let lines = last_n_lines(data.as_bytes(), 200).unwrap();
    assert_eq!(lines, vec!["one", "two", "three"]);
}

#[test]
fn returns_only_last_n_lines() {
    let data = "1\n2\n3\n4\n5\n";
    let lines = last_n_lines(data.as_bytes(), 3).unwrap();
    assert_eq!(lines, vec!["3", "4", "5"]);
}

#[test]
fn handles_no_trailing_newline_on_final_line() {
    let data = "a\nb\nc";
    let lines = last_n_lines(data.as_bytes(), 200).unwrap();
    assert_eq!(lines, vec!["a", "b", "c"]);
}

#[test]
fn handles_crlf_line_endings() {
    let data = "a\r\nb\r\nc\r\n";
    let lines = last_n_lines(data.as_bytes(), 200).unwrap();
    assert_eq!(lines, vec!["a", "b", "c"]);
}

#[test]
fn empty_input_yields_no_lines() {
    let lines = last_n_lines("".as_bytes(), 200).unwrap();
    assert!(lines.is_empty());
}

#[test]
fn n_zero_yields_no_lines() {
    let data = "a\nb\nc\n";
    let lines = last_n_lines(data.as_bytes(), 0).unwrap();
    assert!(lines.is_empty());
}

#[test]
fn follow_emits_appended_lines_and_stops_on_flag() {
    let mut log = b"first\n".to_vec();
    let mut follower = Follower::new(log.len() as u64);
    assert_eq!(follower.on_poll(Some(log.len() as u64)), FollowStep::Wait);
    log.extend_from_slice(b"second\n");
    assert_eq!(follower.on_poll(Some(log.len() as u64)), FollowStep::ReadFrom(6));
    let (seen, all_text) = follower.on_data(&log[6..]);
    assert_eq!(seen, vec!["second"]);
    assert!(all_text);
    assert_eq!(follower.on_poll(Some(log.len() as u64)), FollowStep::Wait);
    assert_eq!(follower.on_poll(None), FollowStep::Stop);
}

#[test]
fn an_unfinished_line_is_left_for_the_next_time() {
    let log = b"one\ntwo";
    let mut follower = Follower::new(0);
    assert_eq!(follower.on_poll(Some(7)), FollowStep::ReadFrom(0));
    let (seen, _) = follower.on_data(log);
    assert_eq!(seen, vec!["one"]);
    assert_eq!(follower.on_poll(Some(10)), FollowStep::ReadFrom(4));
    let (seen, _) = follower.on_data(b"two\r\n\n");
    assert_eq!(seen, vec!["two", ""]);
    assert_eq!(follower.pos, 10);
}

#[test]
fn a_truncated_log_is_read_from_its_start() {
    let mut follower = Follower::new(100);
    assert_eq!(follower.on_poll(Some(5)), FollowStep::ReadFrom(0));
    let mut emptied = Follower::new(100);
    assert_eq!(emptied.on_poll(Some(0)), FollowStep::Wait);
    assert_eq!(emptied.pos, 0);
}

#[test]
fn what_is_no_text_ends_the_following() {
    let mut follower = Follower::new(0);
    let (seen, all_text) = follower.on_data(b"good\nb\xffd\nlost\n");
    assert_eq!(seen, vec!["good"]);
    assert!(!all_text);
    assert_eq!(follower.pos, 5);
}

#[test]
fn a_line_cut_inside_a_character_is_left_for_the_next_time() {
    let mut follower = Follower::new(0);
    let (seen, all_text) = follower.on_data(b"good\n\xc3");
    assert_eq!(seen, vec!["good"]);
    assert!(all_text);
    assert_eq!(follower.pos, 5);
    let (seen, all_text) = follower.on_data(b"\xc3\xa9\n");
    assert_eq!(seen, vec!["\u{e9}"]);
    assert!(all_text);
    assert_eq!(follower.pos, 8);
}

#[test]
fn following_in_pieces_misses_nothing() {
    let log = "alpha\nbeta\r\n\ngamma \u{e9}\nrest";
    let bytes = log.as_bytes();
    let mut whole = Follower::new(0);
    let (expected, _) = whole.on_data(bytes);
    for cut in 0..=bytes.len() {
        let mut follower = Follower::new(0);
        let (mut seen, all_text) = follower.on_data(&bytes[..cut]);
        assert!(all_text);
        let from = follower.pos as usize;
        seen.extend(follower.on_data(&bytes[from..]).0);
        assert_eq!(seen, expected);
        assert_eq!(follower.pos, whole.pos);
    }
}

#[test]
fn a_log_that_is_no_text_is_refused() {
    assert_eq!(last_n_lines(b"a\n\xff\nb\n", 1), Err(NotText));
    assert_eq!(last_n_lines(b"a\n\xff", 1), Err(NotText));
}

#[test]
fn a_carriage_return_alone_ends_no_line() {
    assert_eq!(last_n_lines(b"a\rb\nc\r", 5).unwrap(), vec!["a\rb", "c\r"]);
    assert_eq!(last_n_lines(b"\r\r\n", 5).unwrap(), vec!["\r"]);
}

#[test]
fn newlines_are_stripped_once() {
    for (line, expected) in [("a\n", "a"), ("a\r\n", "a"), ("a\r", "a\r"), ("a\n\n", "a\n"), ("\n", ""), ("", "")] {
        let mut text = line.to_string();
        strip_newline(&mut text);
        assert_eq!(text, expected);
    }
}

#[test]
fn a_window_keeps_the_last_lines() {
    let mut window = Window::new(2);
    for line in ["a", "b", "c"] {
        window.push(line.to_string());
    }
    assert_eq!(window.into_lines(), vec!["b", "c"]);
    let mut none = Window::new(0);
    none.push("a".to_string());
    assert!(none.into_lines().is_empty());
    assert_eq!(DEFAULT_TAIL_LINES, 200);
}
