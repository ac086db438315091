use sky_daemon::payloads::{ContainerSpec, PortBinding};
use sky_daemon::runtime::create::{create_path, to_create_request, CreateFlow, CreateStep};
use sky_daemon::runtime::docker::{
    attach_closed, attach_outcome, attach_request, attach_step, expect, extract_docker_error, request_head,
    response_error_message, unexpected_status, AttachStep, DockerRuntime, EngineCall, StartFlow, StartStep,
};
use sky_daemon::runtime::http::{dechunk, find_double_crlf, parse_response, ChunkError, ResponseError};
use sky_daemon::runtime::pull::{extract_pull_error, first_pull_error, image_present, pull_outcome, PullLine};

fn text_field(value: &serde_json::Value, name: &str) -> Option<String> {
    value.get(name).and_then(|v| v.as_str()).map(|s| s.to_string())
}

fn parse_line(line: &[u8]) -> Option<PullLine> {
    let value: serde_json::Value = serde_json::from_slice(line).ok()?;
    Some(PullLine {
        error: text_field(&value, "error"),
        detail: value.get("errorDetail").and_then(|d| text_field(d, "message")),
    })
}

fn parse_error(body: &[u8]) -> Option<String> {
    let value: serde_json::Value = serde_json::from_slice(body).ok()?;
    text_field(&value, "message")
}

#[test]
fn extract_pull_error_finds_terminal_error_in_stream() {
    let ok = b"{\"status\":\"Pulling\"}\n{\"status\":\"Download complete\"}\n";
    assert_eq!(extract_pull_error(ok, parse_line), None);

    let failed = b"{\"status\":\"Pulling\"}\n{\"error\":\"manifest unknown\"}\n";
    assert_eq!(extract_pull_error(failed, parse_line), Some("manifest unknown".into()));

    // Sometimes only the nested errorDetail is there.
    let detail = b"{\"errorDetail\":{\"message\":\"not found\"}}\n";
    assert_eq!(extract_pull_error(detail, parse_line), Some("not found".into()));
}

#[test]
fn the_first_pull_error_counts_and_empty_ones_do_not() {
    let body = b"  \n\nnot json\n{\"error\":\"\"}\n{\"error\":\"\",\"errorDetail\":{\"message\":\"second\"}}\r\n{\"error\":\"third\"}";
    assert_eq!(extract_pull_error(body, parse_line), Some("second".into()));
    let unfinished = b"{\"status\":\"Pulling\"}\n{\"error\":\"last line\"}";
    assert_eq!(extract_pull_error(unfinished, parse_line), Some("last line".into()));
    assert_eq!(extract_pull_error(b"", parse_line), None);
}

#[test]
fn first_pull_error_prefers_the_error_of_a_line() {
    let both = PullLine { error: Some("error".into()), detail: Some("detail".into()) };
    assert_eq!(first_pull_error(&vec![None, Some(both)]), Some("error".into()));
    let neither = PullLine { error: None, detail: None };
    assert_eq!(first_pull_error(&vec![None, Some(neither)]), None);
}

#[test]
fn pull_outcome_reports_statuses_and_streamed_errors() {
    assert_eq!(pull_outcome("node:22", 200, b"{\"status\":\"done\"}\n", parse_error, parse_line), Ok(()));
    assert_eq!(
        pull_outcome("node:22", 404, b"{\"message\":\"no such image\"}", parse_error, parse_line),
        Err("pull image node:22: unexpected status 404: no such image".to_string())
    );
    assert_eq!(
        pull_outcome("node:22", 200, b"{\"error\":\"manifest unknown\"}", parse_error, parse_line),
        Err("pull image node:22: manifest unknown".to_string())
    );
}

#[test]
fn an_image_is_present_if_its_look_up_succeeds() {
    assert!(image_present(Some(200)));
    assert!(!image_present(Some(404)));
    assert!(!image_present(None));
}

#[test]
fn to_create_request_groups_port_bindings_by_container_port() {
    let spec = ContainerSpec {
        image: "itzg/minecraft-server".into(),
        port_bindings: vec![
            PortBinding { container_port: "25565/tcp".into(), host_port: "25565".into() },
            PortBinding { container_port: "25565/udp".into(), host_port: "25565".into() },
        ],
        ..Default::default()
    };
    let req = to_create_request(&spec, &vec![]);
    assert_eq!(req.host_config.port_bindings.len(), 2);
    assert_eq!(req.host_config.port_bindings.get("25565/tcp").unwrap()[0].host_port, "25565");
}

#[test]
fn to_create_request_keeps_default_caps_with_no_new_privileges() {
    let spec = ContainerSpec { image: "test".into(), ..Default::default() };
    let req = to_create_request(&spec, &vec![]);
    // Dropping all capabilities would break images that drop from root to an
    // unprivileged user at boot.
    assert!(!req.host_config.cap_drop.contains(&"ALL".to_string()));
    assert_eq!(req.host_config.security_opt, vec!["no-new-privileges".to_string()]);
}

#[test]
fn to_create_request_sets_dns_when_provided() {
    let spec = ContainerSpec { image: "test".into(), ..Default::default() };
    let dns = vec!["1.1.1.1".to_string(), "8.8.8.8".to_string()];
    let req = to_create_request(&spec, &dns);
    assert_eq!(req.host_config.dns, dns);
    // No resolvers stand for the engine's default.
    let req_none = to_create_request(&spec, &vec![]);
    assert!(req_none.host_config.dns.is_empty());
}

#[test]
fn to_create_request_carries_the_whole_specification() {
    let spec = ContainerSpec {
        name: "sky-1".into(),
        image: "img".into(),
        cmd: vec!["run".into(), "it".into()],
        env: vec!["A=1".into()],
        working_dir: "/data".into(),
        binds: vec!["/srv:/data".into()],
        port_bindings: vec![
            PortBinding { container_port: "1/tcp".into(), host_port: "10".into() },
            PortBinding { container_port: "2/tcp".into(), host_port: "20".into() },
            PortBinding { container_port: "1/tcp".into(), host_port: "11".into() },
        ],
        memory_bytes: 1024,
        nano_cpus: 5,
        labels: vec![("k".into(), "v".into())],
    };
    let runtime = DockerRuntime::new("/run/docker.sock".into(), vec!["9.9.9.9".into()]);
    assert_eq!(runtime.socket_path, "/run/docker.sock");
    let req = runtime.create_request(&spec);
    assert_eq!(req.image, "img");
    assert_eq!(req.cmd, vec!["run", "it"]);
    assert_eq!(req.env, vec!["A=1"]);
    assert_eq!(req.working_dir, "/data");
    assert_eq!(req.labels, vec![("k".to_string(), "v".to_string())]);
    assert!(!req.tty);
    assert!(req.open_stdin);
    assert_eq!(req.host_config.binds, vec!["/srv:/data"]);
    assert_eq!(req.host_config.memory, 1024);
    assert_eq!(req.host_config.nano_cpus, 5);
    assert_eq!(req.host_config.dns, vec!["9.9.9.9"]);
    let hosts: Vec<&str> =
        req.host_config.port_bindings.get("1/tcp").unwrap().iter().map(|e| e.host_port.as_str()).collect();
    assert_eq!(hosts, vec!["10", "11"]);
    assert!(req.host_config.port_bindings.get("3/tcp").is_none());
}

#[test]
fn parse_response_extracts_status_and_body() {
    let raw = b"HTTP/1.1 201 Created\r\nContent-Type: application/json\r\n\r\n{\"Id\":\"abc\"}";
    let (status, body) = parse_response(raw).unwrap();
    assert_eq!(status, 201);
    assert_eq!(body, b"{\"Id\":\"abc\"}");
}

#[test]
fn parse_response_dechunks_chunked_body() {
    // A list of containers comes chunked: the body carries hexadecimal sizes
    // that have to be taken off before it is JSON.
    let raw = b"HTTP/1.1 200 OK\r\nContent-Type: application/json\r\nTransfer-Encoding: chunked\r\n\r\n5\r\n[{\"a\r\n4\r\n\":1}]\r\n0\r\n\r\n";
    let (status, body) = parse_response(raw).unwrap();
    assert_eq!(status, 200);
    assert_eq!(body, b"[{\"a\":1}]");
    let v: serde_json::Value = serde_json::from_slice(&body).unwrap();
    assert!(v.is_array());
}

#[test]
fn dechunk_handles_size_extensions_and_terminator() {
    let out = dechunk(b"3;name=x\r\nabc\r\n0\r\n\r\n").unwrap();
    assert_eq!(out, b"abc");
}

#[test]
fn find_double_crlf_locates_header_terminator() {
    let buf = b"HTTP/1.1 101 UPGRADED\r\nConnection: Upgrade\r\n\r\nleftover-bytes";
    let pos = find_double_crlf(buf).unwrap();
    assert_eq!(&buf[pos + 4..], b"leftover-bytes");
}

#[test]
fn find_double_crlf_finds_the_first_or_none() {
    assert_eq!(find_double_crlf(b"\r\n\r\n\r\n\r\n"), Some(0));
    assert_eq!(find_double_crlf(b"a\r\n\r\r\n\r\n"), Some(4));
    assert_eq!(find_double_crlf(b"a\r\nb\r\n"), None);
    assert_eq!(find_double_crlf(b""), None);
}

#[test]
fn dechunk_reports_each_fault() {
    assert_eq!(dechunk(b"3"), Err(ChunkError::MissingSizeLine));
    assert_eq!(dechunk(b""), Err(ChunkError::MissingSizeLine));
    assert_eq!(dechunk(b"\xff\r\nabc"), Err(ChunkError::SizeNotText));
    assert_eq!(dechunk(b"xyz\r\nabc"), Err(ChunkError::InvalidSize));
    assert_eq!(dechunk(b"\r\nabc"), Err(ChunkError::InvalidSize));
    assert_eq!(dechunk(b"fffffffffffffffff\r\nabc"), Err(ChunkError::InvalidSize));
    assert_eq!(dechunk(b"4\r\nabc"), Err(ChunkError::Truncated));
}

#[test]
fn dechunk_accepts_what_is_around_a_size() {
    assert_eq!(dechunk(b" 3 \r\nabc\r\n0\r\n").unwrap(), b"abc");
    assert_eq!(dechunk(b"+3\r\nabc0\r\n").unwrap(), b"abc");
    assert_eq!(dechunk(b"A\r\n0123456789\r\n0\r\nignored").unwrap(), b"0123456789");
}

#[test]
fn dechunk_puts_two_swapped_sizes_right_and_nothing_else() {
    assert_eq!(dechunk(b"4\r\nabc\r\n3\r\nwxyz\r\n0\r\n\r\n").unwrap(), b"abcwxyz");
    for body in [
        &b"1\r\nxyz\r\n0\r\n\r\n"[..],
        b"2\r\nxyz\r\n0\r\n\r\n",
        // Right in sum, but not each other's.
        b"4\r\nabc\r\n4\r\nxyzzy\r\n0\r\n\r\n",
        // One of the two is right.
        b"3\r\nabc\r\n4\r\nxyzzy\r\n0\r\n\r\n",
        // Something behind the end, or a third chunk before it.
        b"4\r\nabc\r\n3\r\nwxyz\r\n0\r\n\r\nmore",
        b"4\r\nabc\r\n3\r\nwxyz\r\n1\r\n.\r\n0\r\n\r\n",
    ] {
        assert_eq!(dechunk(body), Err(ChunkError::InvalidSize));
    }
    // Where they lead to the end, the sizes count.
    assert_eq!(dechunk(b"4\r\nabc\r\n5\r\nxyzzy\r\n0\r\n\r\n").unwrap(), b"abc\rxyzzy");
}

#[test]
fn a_chunked_body_that_is_cut_off_is_an_error() {
    let full = b"4\r\nab\r\n\r\n3;x\r\ncde\r\n0\r\n\r\n";
    for k in 0..full.len() - 2 {
        assert!(dechunk(&full[..k]).is_err(), "cut off at {}", k);
    }
    for k in full.len() - 2..=full.len() {
        assert_eq!(dechunk(&full[..k]).unwrap(), b"ab\r\ncde");
    }
}

#[test]
fn chunking_is_undone_for_any_pieces() {
    let payload: Vec<u8> = (0..=255u8).collect();
    for size in 1..40usize {
        let mut wire: Vec<u8> = Vec::new();
        for piece in payload.chunks(size) {
            wire.extend(format!("{:x}\r\n", piece.len()).into_bytes());
            wire.extend_from_slice(piece);
            wire.extend_from_slice(b"\r\n");
        }
        wire.extend_from_slice(b"0\r\n\r\n");
        assert_eq!(dechunk(&wire).unwrap(), payload);
    }
}

#[test]
fn parse_response_reports_each_fault() {
    assert_eq!(parse_response(b"HTTP/9.9 nonsense\r\n\r\n"), Err(ResponseError::Malformed));
    assert_eq!(parse_response(b"HTTP/1.1 200 OK\r\nContent"), Err(ResponseError::Incomplete));
    assert_eq!(
        parse_response(b"HTTP/1.1 200 OK\r\ntransfer-encoding: Gzip, CHUNKED\r\n\r\n4\r\nab"),
        Err(ResponseError::Body(ChunkError::Truncated))
    );
}

#[test]
fn response_errors_have_their_words() {
    let expected = vec![
        (ResponseError::Malformed, "parse docker api response"),
        (ResponseError::Incomplete, "docker api response headers incomplete"),
        (ResponseError::MissingStatus, "docker api response missing status code"),
        (ResponseError::Body(ChunkError::MissingSizeLine), "chunked body: missing chunk-size line"),
        (ResponseError::Body(ChunkError::SizeNotText), "chunked body: chunk size not UTF-8"),
        (ResponseError::Body(ChunkError::InvalidSize), "chunked body: invalid chunk size"),
        (ResponseError::Body(ChunkError::Truncated), "chunked body: truncated chunk"),
    ];
    for (error, words) in expected {
        assert_eq!(response_error_message(&error), words);
    }
}

#[test]
fn request_heads_announce_their_body() {
    assert_eq!(
        request_head("GET", "/containers/json", None),
        "GET /v1.43/containers/json HTTP/1.1\r\nHost: docker\r\nConnection: close\r\n\r\n"
    );
    assert_eq!(
        request_head("POST", "/containers/create", Some(12)),
        "POST /v1.43/containers/create HTTP/1.1\r\nHost: docker\r\nConnection: close\r\nContent-Type: application/json\r\nContent-Length: 12\r\n\r\n"
    );
}

#[test]
fn attaching_asks_for_every_stream() {
    assert_eq!(
        attach_request("abc"),
        "POST /v1.43/containers/abc/attach?stream=1&stdin=1&stdout=1&stderr=1 HTTP/1.1\r\nHost: docker\r\nConnection: Upgrade\r\nUpgrade: tcp\r\n\r\n"
    );
}

fn check_call(call: EngineCall, method: &str, path: &str, ok: &[u16]) {
    let request = call.request();
    assert_eq!(request.method, method);
    assert_eq!(request.path, path);
    assert_eq!(request.ok, ok);
}

#[test]
fn calls_have_their_paths_and_statuses() {
    check_call(EngineCall::List, "GET", "/containers/json?all=true", &[200]);
    check_call(EngineCall::Inspect("a".into()), "GET", "/containers/a/json", &[200]);
    check_call(EngineCall::Stats("a".into()), "GET", "/containers/a/stats?stream=false", &[200]);
    check_call(EngineCall::Start("a".into()), "POST", "/containers/a/start", &[204, 304]);
    check_call(EngineCall::Stop("a".into(), 15), "POST", "/containers/a/stop?t=15", &[204, 304]);
    check_call(EngineCall::Kill("a".into()), "POST", "/containers/a/kill", &[204]);
    check_call(EngineCall::Remove("a".into()), "DELETE", "/containers/a?force=true", &[204]);
    check_call(EngineCall::RemoveByName("sky-a".into()), "DELETE", "/containers/sky-a?force=true", &[204, 404]);
}

#[test]
fn create_paths_carry_the_name() {
    assert_eq!(create_path(""), "/containers/create");
    assert_eq!(create_path("sky-1"), "/containers/create?name=sky-1");
}

#[test]
fn docker_errors_are_quoted_or_passed_on() {
    assert_eq!(extract_docker_error(b"{\"message\":\"no such container\"}", parse_error), "no such container");
    assert_eq!(extract_docker_error(b"{\"message\":\"\"}", parse_error), "{\"message\":\"\"}");
    assert_eq!(extract_docker_error(b"plain \xff words", parse_error), "plain \u{fffd} words");
}

#[test]
fn expect_accepts_the_given_statuses_only() {
    let request = EngineCall::Kill("a".into()).request();
    assert_eq!(expect(&request, 204, b"body".to_vec(), parse_error), Ok(b"body".to_vec()));
    assert_eq!(
        expect(&request, 409, b"{\"message\":\"not running\"}".to_vec(), parse_error),
        Err("docker api POST /containers/a/kill: unexpected status 409: not running".to_string())
    );
    assert_eq!(
        unexpected_status("GET", "/x", 0, "why"),
        "docker api GET /x: unexpected status 0: why"
    );
}

#[test]
fn starting_heals_a_port_conflict_once() {
    assert!(matches!(StartFlow::new().on_reply("a", 204, ""), StartStep::Started));
    assert!(matches!(StartFlow::new().on_reply("a", 304, ""), StartStep::Started));
    let mut flow = StartFlow::new();
    assert!(matches!(flow.on_reply("a", 500, "Bind failed: port is already allocated"), StartStep::FreePorts));
    assert!(matches!(flow.on_reply("a", 500, "Bind failed: port is already allocated"), StartStep::Failed(_)));
    let mut flow = StartFlow::new();
    assert!(matches!(flow.on_reply("a", 500, "listen tcp: address already in use."), StartStep::FreePorts));
    assert!(matches!(flow.on_reply("a", 204, ""), StartStep::Started));
    match StartFlow::new().on_reply("a", 409, "port is already allocated") {
        StartStep::Failed(e) => assert_eq!(
            e,
            "docker api POST /containers/a/start: unexpected status 409: port is already allocated"
        ),
        _ => panic!("another status is a failure"),
    }
    assert!(matches!(StartFlow::new().on_reply("a", 500, "out of memory"), StartStep::Failed(_)));
}

#[test]
fn creating_recovers_from_each_failure_once() {
    let mut flow = CreateFlow::new();
    assert_eq!(flow.on_status(404, true), CreateStep::PullImage);
    assert_eq!(flow.on_status(409, true), CreateStep::RemoveLeftover);
    assert_eq!(flow.on_status(201, true), CreateStep::Created);

    let mut missing = CreateFlow::new();
    assert_eq!(missing.on_status(404, true), CreateStep::PullImage);
    assert_eq!(missing.on_status(404, true), CreateStep::Fail);

    let mut taken = CreateFlow::new();
    assert_eq!(taken.on_status(409, true), CreateStep::RemoveLeftover);
    assert_eq!(taken.on_status(409, true), CreateStep::Fail);

    let mut nameless = CreateFlow::new();
    assert_eq!(nameless.on_status(409, false), CreateStep::Fail);
    assert_eq!(nameless.on_status(500, false), CreateStep::Fail);
}

#[test]
fn attaching_waits_for_the_whole_head() {
    let head = b"HTTP/1.1 101 UPGRADED\r\nConnection: Upgrade\r\nUpgrade: tcp\r\n\r\n";
    assert!(matches!(attach_step(&head[..head.len() - 1], parse_error), AttachStep::ReadMore));
    let mut buf = head.to_vec();
    buf.extend_from_slice(b"first bytes");
    match attach_step(&buf, parse_error) {
        AttachStep::Attached(left) => assert_eq!(left, b"first bytes"),
        _ => panic!("expected to be attached"),
    }
    assert_eq!(attach_closed(), "attach: connection closed before response headers completed");
}

#[test]
fn attaching_reports_refusals() {
    match attach_step(b"HTTP/1.1 404 Not Found\r\n\r\n{\"message\":\"no such container\"}", parse_error) {
        AttachStep::Failed(e) => assert_eq!(e, "attach: unexpected status 404: no such container"),
        _ => panic!("expected a failure"),
    }
    match attach_step(b"nonsense\r\n\r\n", parse_error) {
        AttachStep::Failed(e) => assert_eq!(e, "parse docker api response"),
        _ => panic!("expected a failure"),
    }
    match attach_outcome(Err(ResponseError::MissingStatus), b"", parse_error) {
        AttachStep::Failed(e) => assert_eq!(e, "docker api response missing status code"),
        _ => panic!("expected a failure"),
    }
}
