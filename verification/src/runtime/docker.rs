//! Talking to the Docker Engine: the requests that are sent over its socket,
//! and what its replies mean. Sending and receiving are left to the caller.

use vstd::prelude::*;
use vstd::string::*;

use crate::payloads::ContainerSpec;
use crate::runtime::create::{self, CreateContainerRequest};
use crate::runtime::http::{self, ChunkError, ResponseError};
use crate::search;
use crate::text;

verus! {

/// The version of the engine API that requests are made in.
pub const API_VERSION: &'static str = "v1.43";

/// Where the engine listens, and the resolvers of each container that is
/// created. No resolvers stand for the engine's default.
#[derive(Debug, Clone)]
pub struct DockerRuntime {
    pub socket_path: String,
    pub dns: Vec<String>,
}

impl DockerRuntime {
    /// An engine at a socket.
    pub fn new(socket_path: String, dns: Vec<String>) -> (out: Self)
        ensures
            out.socket_path == socket_path,
            out.dns == dns,
    {
        DockerRuntime { socket_path, dns }
    }

    /// The request that creates a container on this engine.
    pub fn create_request(&self, spec: &ContainerSpec) -> (out: CreateContainerRequest)
        ensures
            create::is_create_request(out, *spec, self.dns@),
            out.image@ == spec.image@,
            out.cmd@.len() == spec.cmd@.len(),
            forall|i: int| 0 <= i < spec.cmd@.len() ==> (#[trigger] out.cmd@[i])@ == spec.cmd@[i]@,
            out.env@.len() == spec.env@.len(),
            forall|i: int| 0 <= i < spec.env@.len() ==> (#[trigger] out.env@[i])@ == spec.env@[i]@,
            out.host_config.binds@.len() == spec.binds@.len(),
            forall|i: int| 0 <= i < spec.binds@.len() ==> (#[trigger] out.host_config.binds@[i])@ == spec.binds@[i]@,
            out.host_config.dns@.len() == self.dns@.len(),
            forall|i: int| 0 <= i < self.dns@.len() ==> (#[trigger] out.host_config.dns@[i])@ == self.dns@[i]@,
    {
        create::to_create_request(spec, &self.dns)
    }
}

/// The head of a request whose connection closes after the reply. A body, of
/// which only the length counts here, is announced as JSON.
pub open spec fn request_head_text(method: Seq<char>, path: Seq<char>, body: Option<int>) -> Seq<char> {
    method + " /"@ + API_VERSION@ + path + " HTTP/1.1\r\nHost: docker\r\nConnection: close\r\n"@ + (match body {
        Some(n) => "Content-Type: application/json\r\nContent-Length: "@ + text::decimal(n as nat) + "\r\n"@,
        None => Seq::<char>::empty(),
    }) + "\r\n"@
}

/// Writes the head of a request.
pub fn request_head(method: &str, path: &str, body_len: Option<usize>) -> (out: String)
    ensures
        out@ == request_head_text(
            method@,
            path@,
            (match body_len {
                Some(n) => Some(n as int),
                None => None,
            }),
        ),
{
    let mut out: String = method.to_owned();
    out.append(" /");
    out.append(API_VERSION);
    out.append(path);
    out.append(" HTTP/1.1\r\nHost: docker\r\nConnection: close\r\n");
    let ghost start = out@;
    match body_len {
        Some(n) => {
            out.append("Content-Type: application/json\r\nContent-Length: ");
            out.append(text::decimal_text(n as u64).as_str());
            out.append("\r\n");
            assert(out@ =~= start + ("Content-Type: application/json\r\nContent-Length: "@ + text::decimal(n as nat)
                + "\r\n"@));
        },
        None => {
            assert(start + Seq::<char>::empty() =~= start);
        },
    }
    out.append("\r\n");
    out
}

/// Writes the request that takes over a connection as the console of a
/// container.
pub fn attach_request(id: &str) -> (out: String)
    ensures
        out@ == "POST /"@ + API_VERSION@ + "/containers/"@ + id@
            + "/attach?stream=1&stdin=1&stdout=1&stderr=1 HTTP/1.1\r\nHost: docker\r\nConnection: Upgrade\r\nUpgrade: tcp\r\n\r\n"@,
        out@ == attach_request_text(id@),
{
    let mut out: String = "POST /".to_owned();
    out.append(API_VERSION);
    out.append("/containers/");
    out.append(id);
    out.append(
        "/attach?stream=1&stdin=1&stdout=1&stderr=1 HTTP/1.1\r\nHost: docker\r\nConnection: Upgrade\r\nUpgrade: tcp\r\n\r\n",
    );
    out
}

/// A request that carries no body.
#[derive(Debug, Clone)]
pub enum EngineCall {
    /// List every container, stopped ones too.
    List,
    Inspect(String),
    Stats(String),
    Start(String),
    /// Stop, and kill after so many seconds.
    Stop(String, u64),
    Kill(String),
    /// Stop and remove. The volume is a bind mount and stays.
    Remove(String),
    /// Remove by name or id; that nothing is there is fine.
    RemoveByName(String),
}

/// A request and the statuses that it may be answered with.
#[derive(Debug, Clone)]
pub struct EngineRequest {
    pub method: String,
    pub path: String,
    pub ok: Vec<u16>,
}

impl EngineCall {
    /// The method of the request.
    pub open spec fn method(self) -> Seq<char> {
        match self {
            EngineCall::List => "GET"@,
            EngineCall::Inspect(_) => "GET"@,
            EngineCall::Stats(_) => "GET"@,
            EngineCall::Start(_) => "POST"@,
            EngineCall::Stop(_, _) => "POST"@,
            EngineCall::Kill(_) => "POST"@,
            EngineCall::Remove(_) => "DELETE"@,
            EngineCall::RemoveByName(_) => "DELETE"@,
        }
    }

    /// The path of the request.
    pub open spec fn path(self) -> Seq<char> {
        match self {
            EngineCall::List => "/containers/json?all=true"@,
            EngineCall::Inspect(id) => "/containers/"@ + id@ + "/json"@,
            EngineCall::Stats(id) => "/containers/"@ + id@ + "/stats?stream=false"@,
            EngineCall::Start(id) => "/containers/"@ + id@ + "/start"@,
            EngineCall::Stop(id, secs) => "/containers/"@ + id@ + "/stop?t="@ + text::decimal(secs as nat),
            EngineCall::Kill(id) => "/containers/"@ + id@ + "/kill"@,
            EngineCall::Remove(id) => "/containers/"@ + id@ + "?force=true"@,
            EngineCall::RemoveByName(name) => "/containers/"@ + name@ + "?force=true"@,
        }
    }

    /// Whether a status means success. Starting a container that runs, and
    /// stopping one that does not, are answered with 304.
    pub open spec fn succeeds(self, status: u16) -> bool {
        match self {
            EngineCall::List => status == 200,
            EngineCall::Inspect(_) => status == 200,
            EngineCall::Stats(_) => status == 200,
            EngineCall::Start(_) => status == 204 || status == 304,
            EngineCall::Stop(_, _) => status == 204 || status == 304,
            EngineCall::Kill(_) => status == 204,
            EngineCall::Remove(_) => status == 204,
            EngineCall::RemoveByName(_) => status == 204 || status == 404,
        }
    }

    /// The request of a call.
    pub fn request(&self) -> (out: EngineRequest)
        ensures
            out.method@ == self.method(),
            out.path@ == self.path(),
            forall|status: u16| #[trigger] out.ok@.contains(status) <==> self.succeeds(status),
    {
        let (method, path, ok): (&str, String, Vec<u16>) = match self {
            EngineCall::List => ("GET", "/containers/json?all=true".to_owned(), one_status(200)),
            EngineCall::Inspect(id) => ("GET", text::concat3("/containers/", id.as_str(), "/json"), one_status(200)),
            EngineCall::Stats(id) => (
                "GET",
                text::concat3("/containers/", id.as_str(), "/stats?stream=false"),
                one_status(200),
            ),
            EngineCall::Start(id) => (
                "POST",
                text::concat3("/containers/", id.as_str(), "/start"),
                two_statuses(204, 304),
            ),
            EngineCall::Stop(id, secs) => {
                let mut path: String = text::concat3("/containers/", id.as_str(), "/stop?t=");
                path.append(text::decimal_text(*secs).as_str());
                ("POST", path, two_statuses(204, 304))
            },
            EngineCall::Kill(id) => ("POST", text::concat3("/containers/", id.as_str(), "/kill"), one_status(204)),
            EngineCall::Remove(id) => (
                "DELETE",
                text::concat3("/containers/", id.as_str(), "?force=true"),
                one_status(204),
            ),
            EngineCall::RemoveByName(name) => (
                "DELETE",
                text::concat3("/containers/", name.as_str(), "?force=true"),
                two_statuses(204, 404),
            ),
        };
        EngineRequest { method: method.to_owned(), path, ok }
    }
}

/// A list of one status.
fn one_status(a: u16) -> (out: Vec<u16>)
    ensures
        forall|status: u16| #[trigger] out@.contains(status) <==> status == a,
{
    let mut out: Vec<u16> = Vec::new();
    out.push(a);
    assert(out@[0] == a);
    out
}

/// A list of two statuses.
fn two_statuses(a: u16, b: u16) -> (out: Vec<u16>)
    ensures
        forall|status: u16| #[trigger] out@.contains(status) <==> (status == a || status == b),
{
    let mut out: Vec<u16> = Vec::new();
    out.push(a);
    out.push(b);
    assert(out@[0] == a);
    assert(out@[1] == b);
    out
}

/// What the engine says went wrong: the message that its reply was read as, if
/// there is one, and else the reply itself.
pub open spec fn docker_error(message: Option<Seq<char>>, body: Seq<u8>) -> Seq<char> {
    match message {
        Some(m) => if m.len() > 0 {
            m
        } else {
            text::shown(body)
        },
        None => text::shown(body),
    }
}

/// The characters of a text that may be absent.
pub open spec fn text_model(s: Option<String>) -> Option<Seq<char>> {
    match s {
        Some(s) => Some(s@),
        None => None,
    }
}

/// Whether a text is what the engine says went wrong, where `parse` reads the
/// message out of a reply.
pub open spec fn says_error<F: Fn(&[u8]) -> Option<String>>(parse: F, body: &[u8], said: Seq<char>) -> bool {
    exists|message: Option<String>| #[trigger]
        parse.ensures((body,), message) && said == docker_error(text_model(message), body@)
}

/// Tells what the engine says went wrong. `parse` reads the `message` of a JSON
/// reply; a reply that is none, or whose message is empty, is quoted.
pub fn extract_docker_error<F: Fn(&[u8]) -> Option<String>>(body: &[u8], parse: F) -> (out: String)
    requires
        parse.requires((body,)),
    ensures
        says_error(parse, body, out@),
{
    match parse(body) {
        Some(message) => {
            if message.as_str().is_empty() {
                assert(parse.ensures((body,), Some(message)));
                text::shown_text(body)
            } else {
                assert(parse.ensures((body,), Some(message)));
                message
            }
        },
        None => text::shown_text(body),
    }
}

/// How a reply with a status that was not asked for is reported.
pub open spec fn unexpected_text(method: Seq<char>, path: Seq<char>, status: u16, error: Seq<char>) -> Seq<char> {
    "docker api "@ + method + " "@ + path + ": unexpected status "@ + text::decimal(status as nat) + ": "@ + error
}

/// Reports a reply with a status that was not asked for.
pub fn unexpected_status(method: &str, path: &str, status: u16, error: &str) -> (out: String)
    ensures
        out@ == unexpected_text(method@, path@, status, error@),
{
    let mut out: String = "docker api ".to_owned();
    out.append(method);
    out.append(" ");
    out.append(path);
    out.append(": unexpected status ");
    out.append(text::decimal_text(status as u64).as_str());
    out.append(": ");
    out.append(error);
    out
}

/// Takes the body of a reply whose status is one of those that were asked for,
/// and reports any other reply.
pub fn expect<F: Fn(&[u8]) -> Option<String>>(
    request: &EngineRequest,
    status: u16,
    body: Vec<u8>,
    parse: F,
) -> (out: Result<Vec<u8>, String>)
    requires
        forall|reply: &[u8]| #[trigger] parse.requires((reply,)),
    ensures
        is_expected(out, request.ok@, status, body),
        match out {
            Ok(b) => request.ok@.contains(status) && b == body,
            Err(e) => {
                &&& !request.ok@.contains(status)
                &&& exists|reply: &[u8], said: Seq<char>|
                    {
                        &&& reply@ == body@
                        &&& #[trigger] says_error(parse, reply, said)
                        &&& e@ == unexpected_text(request.method@, request.path@, status, said)
                    }
            },
        },
{
    let mut i: usize = 0;
    while i < request.ok.len()
        invariant
            i <= request.ok@.len(),
            forall|j: int| 0 <= j < i ==> request.ok@[j] != status,
        decreases request.ok@.len() - i,
    {
        if request.ok[i] == status {
            return Ok(body);
        }
        i = i + 1;
    }
    let reply: &[u8] = body.as_slice();
    let said: String = extract_docker_error(reply, parse);
    assert(reply@ == body@ && says_error(parse, reply, said@));
    Err(unexpected_status(request.method.as_str(), request.path.as_str(), status, said.as_str()))
}

/// What the reply to a start request calls for.
#[derive(Debug, Clone)]
pub enum StartStep {
    /// The container runs.
    Started,
    /// A leftover container holds one of its host ports: free them, and ask
    /// once more.
    FreePorts,
    /// The engine refuses.
    Failed(String),
}

/// Whether the engine says that a host port is taken.
pub open spec fn says_port_taken(error: Seq<char>) -> bool {
    search::occurs(error, "port is already allocated"@) || search::occurs(error, "address already in use"@)
}

/// Starting a container.
#[derive(Debug, Clone, Copy)]
pub struct StartFlow {
    /// Whether ports have been freed for it.
    pub freed: bool,
}

/// Whether a step is what the reply to a start request calls for.
pub open spec fn is_start_step(step: StartStep, freed: bool, id: Seq<char>, status: u16, error: Seq<char>) -> bool {
    if status == 204 || status == 304 {
        step is Started
    } else if !freed && status == 500 && says_port_taken(error) {
        step is FreePorts
    } else {
        step matches StartStep::Failed(e) && e@ == unexpected_text(
            "POST"@,
            "/containers/"@ + id + "/start"@,
            status,
            error,
        )
    }
}

impl StartFlow {
    /// No port has been freed.
    pub fn new() -> (out: Self)
        ensures
            !out.freed,
    {
        StartFlow { freed: false }
    }

    /// Decides about the reply to a start request. Ports are freed at most once,
    /// so that a lasting conflict surfaces.
    pub fn on_reply(&mut self, id: &str, status: u16, error: &str) -> (step: StartStep)
        ensures
            is_start_step(step, old(self).freed, id@, status, error@),
            final(self).freed == (old(self).freed || step is FreePorts),
            final(self).freed == freed_after(old(self).freed, step),
    {
        if status == 204 || status == 304 {
            return StartStep::Started;
        }
        if !self.freed && status == 500 && (search::contains_text(error, "port is already allocated")
            || search::contains_text(error, "address already in use")) {
            self.freed = true;
            return StartStep::FreePorts;
        }
        let path: String = text::concat3("/containers/", id, "/start");
        StartStep::Failed(unexpected_status("POST", path.as_str(), status, error))
    }
}

/// How a response that cannot be read is reported.
pub open spec fn response_error_text(e: ResponseError) -> Seq<char> {
    match e {
        ResponseError::Malformed => "parse docker api response"@,
        ResponseError::Incomplete => "docker api response headers incomplete"@,
        ResponseError::MissingStatus => "docker api response missing status code"@,
        ResponseError::Body(ChunkError::MissingSizeLine) => "chunked body: missing chunk-size line"@,
        ResponseError::Body(ChunkError::SizeNotText) => "chunked body: chunk size not UTF-8"@,
        ResponseError::Body(ChunkError::InvalidSize) => "chunked body: invalid chunk size"@,
        ResponseError::Body(ChunkError::Truncated) => "chunked body: truncated chunk"@,
    }
}

/// Reports a response that cannot be read.
pub fn response_error_message(e: &ResponseError) -> (out: String)
    ensures
        out@ == response_error_text(*e),
{
    let said: &str = match e {
        ResponseError::Malformed => "parse docker api response",
        ResponseError::Incomplete => "docker api response headers incomplete",
        ResponseError::MissingStatus => "docker api response missing status code",
        ResponseError::Body(ChunkError::MissingSizeLine) => "chunked body: missing chunk-size line",
        ResponseError::Body(ChunkError::SizeNotText) => "chunked body: chunk size not UTF-8",
        ResponseError::Body(ChunkError::InvalidSize) => "chunked body: invalid chunk size",
        ResponseError::Body(ChunkError::Truncated) => "chunked body: truncated chunk",
    };
    said.to_owned()
}

/// What has come back on a connection that is to become a console.
#[derive(Debug, Clone)]
pub enum AttachStep {
    /// The head of the reply is not complete yet.
    ReadMore,
    /// The connection is the console; these bytes of it have been read.
    Attached(Vec<u8>),
    /// The engine refuses.
    Failed(String),
}

/// Decides about a connection that is to become a console, given how the head
/// of the reply reads and the bytes behind it: it has to be switched over,
/// which is status 101.
pub fn attach_outcome<F: Fn(&[u8]) -> Option<String>>(
    head: Result<(u16, Vec<u8>), ResponseError>,
    rest: &[u8],
    parse: F,
) -> (out: AttachStep)
    requires
        parse.requires((rest,)),
    ensures
        is_attach_step(
            out,
            (match head {
                Ok((status, _)) => Some(status),
                Err(_) => None,
            }),
            rest@,
        ),
        match head {
            Err(e) => out matches AttachStep::Failed(said) && said@ == response_error_text(e),
            Ok((status, _)) => if status == 101 {
                out matches AttachStep::Attached(left) && left@ == rest@
            } else {
                exists|said: Seq<char>| #[trigger]
                    says_error(parse, rest, said) && (out matches AttachStep::Failed(e) && e@
                        == "attach: unexpected status "@ + text::decimal(status as nat) + ": "@ + said)
            },
        },
{
    match head {
        Err(e) => AttachStep::Failed(response_error_message(&e)),
        Ok((status, _)) => {
            if status == 101 {
                AttachStep::Attached(vstd::slice::slice_to_vec(rest))
            } else {
                let said: String = extract_docker_error(rest, parse);
                let number: String = text::decimal_text(status as u64);
                let mut e: String = text::concat3("attach: unexpected status ", number.as_str(), ": ");
                e.append(said.as_str());
                AttachStep::Failed(e)
            }
        },
    }
}

/// Decides about a connection that is to become a console, given all that has
/// been read from it.
pub fn attach_step<F: Fn(&[u8]) -> Option<String>>(buf: &[u8], parse: F) -> (out: AttachStep)
    requires
        forall|reply: &[u8]| #[trigger] parse.requires((reply,)),
    ensures
        match behind_head(buf@) {
            None => out is ReadMore,
            Some(rest) => (out is Attached || out is Failed) && (out matches AttachStep::Attached(left) ==> left@ == rest),
        },
        match search::first_index(buf@, http::crlf() + http::crlf()) {
            None => out is ReadMore,
            Some(i) => {
                let head = buf@.take(i + 4);
                match http::response_from(head, http::response_head(head)) {
                    Err(e) => out matches AttachStep::Failed(said) && said@ == response_error_text(e),
                    Ok((status, _)) => if status == 101 {
                        out matches AttachStep::Attached(left) && left@ == buf@.skip(i + 4)
                    } else {
                        exists|rest: &[u8], said: Seq<char>|
                            {
                                &&& rest@ == buf@.skip(i + 4)
                                &&& #[trigger] says_error(parse, rest, said)
                                &&& out matches AttachStep::Failed(e) && e@ == "attach: unexpected status "@
                                    + text::decimal(status as nat) + ": "@ + said
                            }
                    },
                }
            },
        },
{
    proof {
        search::lemma_first_index(buf@, http::crlf() + http::crlf());
    }
    match http::find_double_crlf(buf) {
        None => AttachStep::ReadMore,
        Some(pos) => {
            proof {
                search::lemma_first_index_is(buf@, http::crlf() + http::crlf(), pos as int);
            }
            let n: usize = buf.len();
            let head: &[u8] = vstd::slice::slice_subrange(buf, 0, pos + 4);
            let rest: &[u8] = vstd::slice::slice_subrange(buf, pos + 4, n);
            assert(head@ =~= buf@.take(pos + 4));
            assert(rest@ =~= buf@.skip(pos + 4));
            let read: Result<(u16, Vec<u8>), ResponseError> = http::parse_response(head);
            attach_outcome(read, rest, parse)
        },
    }
}

/// Reports a connection that was closed before it became a console.
pub fn attach_closed() -> (out: String)
    ensures
        out@ == "attach: connection closed before response headers completed"@,
{
    "attach: connection closed before response headers completed".to_owned()
}

/// A request names its method and its path in the version of the API that the
/// daemon speaks, asks for the connection to be closed, and announces the length of
/// its body exactly where it has one. A blank line ends it.
pub proof fn law_request_heads(method: Seq<char>, path: Seq<char>, n: nat)
    ensures
        request_head_text(method, path, None) == method + " /v1.43"@ + path
            + " HTTP/1.1\r\nHost: docker\r\nConnection: close\r\n\r\n"@,
        request_head_text(method, path, Some(n as int)) == method + " /v1.43"@ + path
            + " HTTP/1.1\r\nHost: docker\r\nConnection: close\r\nContent-Type: application/json\r\nContent-Length: "@
            + text::decimal(n) + "\r\n\r\n"@,
{
    reveal_strlit(" /");
    reveal_strlit("v1.43");
    reveal_strlit(" /v1.43");
    reveal_strlit("\r\n");
    reveal_strlit("\r\n\r\n");
    reveal_strlit(" HTTP/1.1\r\nHost: docker\r\nConnection: close\r\n");
    reveal_strlit(" HTTP/1.1\r\nHost: docker\r\nConnection: close\r\n\r\n");
    reveal_strlit("Content-Type: application/json\r\nContent-Length: ");
    reveal_strlit(
        " HTTP/1.1\r\nHost: docker\r\nConnection: close\r\nContent-Type: application/json\r\nContent-Length: ",
    );
    let line = " HTTP/1.1\r\nHost: docker\r\nConnection: close\r\n"@;
    let kind = "Content-Type: application/json\r\nContent-Length: "@;
    assert(" /"@ + API_VERSION@ =~= " /v1.43"@);
    assert(line + "\r\n"@ =~= " HTTP/1.1\r\nHost: docker\r\nConnection: close\r\n\r\n"@);
    assert(line + kind
        =~= " HTTP/1.1\r\nHost: docker\r\nConnection: close\r\nContent-Type: application/json\r\nContent-Length: "@);
    assert("\r\n"@ + "\r\n"@ =~= "\r\n\r\n"@);
    let start = method + " /v1.43"@ + path;
    assert(method + " /"@ + API_VERSION@ + path =~= start);
    assert(request_head_text(method, path, None) =~= start + (line + "\r\n"@));
    assert(request_head_text(method, path, Some(n as int)) =~= start + (line + kind) + text::decimal(n) + ("\r\n"@
        + "\r\n"@));
}

/// The container that a call is about, if it is about one.
pub open spec fn container_of_call(call: EngineCall) -> Option<Seq<char>> {
    match call {
        EngineCall::List => None,
        EngineCall::Inspect(id) => Some(id@),
        EngineCall::Stats(id) => Some(id@),
        EngineCall::Start(id) => Some(id@),
        EngineCall::Stop(id, _) => Some(id@),
        EngineCall::Kill(id) => Some(id@),
        EngineCall::Remove(id) => Some(id@),
        EngineCall::RemoveByName(name) => Some(name@),
    }
}

/// A call goes to the path of its own container: behind `/containers/` stands the
/// whole id, and what follows is the same for every container.
pub proof fn law_calls_go_to_their_container(call: EngineCall)
    ensures
        container_of_call(call) matches Some(id) ==> call.path() == "/containers/"@ + id + (match call {
            EngineCall::Inspect(_) => "/json"@,
            EngineCall::Stats(_) => "/stats?stream=false"@,
            EngineCall::Start(_) => "/start"@,
            EngineCall::Stop(_, secs) => "/stop?t="@ + text::decimal(secs as nat),
            EngineCall::Kill(_) => "/kill"@,
            _ => "?force=true"@,
        }),
        call is List ==> call.path() == "/containers/json?all=true"@,
{
    if let EngineCall::Stop(id, secs) = call {
        assert("/containers/"@ + id@ + "/stop?t="@ + text::decimal(secs as nat) =~= "/containers/"@ + id@ + (
        "/stop?t="@ + text::decimal(secs as nat)));
    }
}

/// What a call only looks at it gets, what it changes it posts, and what it removes
/// it deletes.
pub proof fn law_calls_have_their_methods(call: EngineCall)
    ensures
        call is List || call is Inspect || call is Stats ==> call.method() == seq!['G', 'E', 'T'],
        call is Start || call is Stop || call is Kill ==> call.method() == seq!['P', 'O', 'S', 'T'],
        call is Remove || call is RemoveByName ==> call.method() == seq!['D', 'E', 'L', 'E', 'T', 'E'],
{
    reveal_strlit("GET");
    reveal_strlit("POST");
    reveal_strlit("DELETE");
    assert("GET"@ =~= seq!['G', 'E', 'T']);
    assert("POST"@ =~= seq!['P', 'O', 'S', 'T']);
    assert("DELETE"@ =~= seq!['D', 'E', 'L', 'E', 'T', 'E']);
}

/// A call succeeds with the one status of its kind: 200 for what it gets, 204 for
/// what it does. Starting what runs and stopping what does not succeed with 304
/// too, and clearing a name with 404.
pub proof fn law_calls_succeed_as_documented(call: EngineCall, status: u16)
    ensures
        call.succeeds(status) <==> {
            ||| status == 200 && (call is List || call is Inspect || call is Stats)
            ||| status == 204 && !(call is List || call is Inspect || call is Stats)
            ||| status == 304 && (call is Start || call is Stop)
            ||| status == 404 && call is RemoveByName
        },
{
}

/// What the engine says went wrong is its message where there is one, and else the
/// whole reply, which is quoted as it is where it is UTF-8.
pub proof fn law_engine_errors_are_quoted(message: Seq<char>, body: Seq<u8>)
    ensures
        message.len() > 0 ==> docker_error(Some(message), body) == message,
        message.len() == 0 ==> docker_error(Some(message), body) == docker_error(None, body),
        vstd::utf8::valid_utf8(body) ==> vstd::utf8::encode_utf8(docker_error(None, body)) == body,
        !vstd::utf8::valid_utf8(body) ==> docker_error(None, body) == text::utf8_lossy(body),
{
    if vstd::utf8::valid_utf8(body) {
        text::law_utf8_is_shown_as_it_is(body);
    }
}

/// A reply that was not asked for is reported with the request, the status and what
/// the engine said.
pub proof fn law_unexpected_replies_are_reported_whole(
    method: Seq<char>,
    path: Seq<char>,
    status: u16,
    error: Seq<char>,
)
    ensures
        unexpected_text(method, path, status, error) == "docker api "@ + method.push(' ') + path
            + ": unexpected status "@ + text::decimal(status as nat) + ": "@ + error,
{
    reveal_strlit(" ");
    assert("docker api "@ + method + " "@ =~= "docker api "@ + method.push(' '));
}

/// A start succeeds with 204 or 304; where the engine says that a port is taken,
/// ports are freed, once; every other reply is a failure that is reported whole.
pub proof fn law_start_replies_are_taken_as_meant(
    step: StartStep,
    freed: bool,
    id: Seq<char>,
    status: u16,
    error: Seq<char>,
)
    requires
        is_start_step(step, freed, id, status, error),
    ensures
        step is Started <==> status == 204 || status == 304,
        step is FreePorts <==> !freed && status == 500 && (search::occurs(error, "port is already allocated"@)
            || search::occurs(error, "address already in use"@)),
        step matches StartStep::Failed(said) ==> said@ == unexpected_text(
            "POST"@,
            "/containers/"@ + id + "/start"@,
            status,
            error,
        ),
{
}

/// The request that takes over a connection as the console of a container.
pub open spec fn attach_request_text(id: Seq<char>) -> Seq<char> {
    "POST /"@ + API_VERSION@ + "/containers/"@ + id
        + "/attach?stream=1&stdin=1&stdout=1&stderr=1 HTTP/1.1\r\nHost: docker\r\nConnection: Upgrade\r\nUpgrade: tcp\r\n\r\n"@
}

/// A console is asked for on its own container, with its input and both its
/// outputs, over a connection that is switched over: requests for different
/// containers differ, and the whole id stands in the path.
pub proof fn law_console_is_asked_for_on_its_container(a: Seq<char>, b: Seq<char>)
    ensures
        attach_request_text(a) == "POST /v1.43/containers/"@ + a
            + "/attach?stream=1&stdin=1&stdout=1&stderr=1 HTTP/1.1\r\nHost: docker\r\nConnection: Upgrade\r\nUpgrade: tcp\r\n\r\n"@,
        attach_request_text(a) == attach_request_text(b) <==> a == b,
{
    reveal_strlit("POST /");
    reveal_strlit("v1.43");
    reveal_strlit("/containers/");
    reveal_strlit("POST /v1.43/containers/");
    let start = "POST /v1.43/containers/"@;
    let rest =
        "/attach?stream=1&stdin=1&stdout=1&stderr=1 HTTP/1.1\r\nHost: docker\r\nConnection: Upgrade\r\nUpgrade: tcp\r\n\r\n"@;
    assert("POST /"@ + API_VERSION@ + "/containers/"@ =~= start);
    if start + a + rest == start + b + rest {
        assert((start + a + rest).len() == start.len() + a.len() + rest.len());
        assert((start + b + rest).len() == start.len() + b.len() + rest.len());
        assert((start + a + rest).subrange(start.len() as int, (start.len() + a.len()) as int) =~= a);
        assert((start + b + rest).subrange(start.len() as int, (start.len() + a.len()) as int) =~= b);
    }
}

/// Whether a step is right about a connection that is to become a console: it is
/// one, from the bytes behind the head on, exactly where the status is 101.
pub open spec fn is_attach_step(step: AttachStep, status: Option<u16>, rest: Seq<u8>) -> bool {
    if status == Some(101u16) {
        step matches AttachStep::Attached(left) && left@ == rest
    } else {
        step is Failed
    }
}

/// A connection becomes a console exactly where the engine switches it over, and
/// then no byte behind the head is lost.
pub proof fn law_console_begins_behind_the_head(step: AttachStep, status: Option<u16>, rest: Seq<u8>)
    requires
        is_attach_step(step, status, rest),
    ensures
        step is Attached <==> status == Some(101u16),
        step matches AttachStep::Attached(left) ==> left@ == rest,
        !(step is ReadMore),
{
}

/// What has been read of a connection behind the head of the reply, once that is
/// complete.
pub open spec fn behind_head(buf: Seq<u8>) -> Option<Seq<u8>> {
    match search::first_index(buf, http::crlf() + http::crlf()) {
        Some(i) => Some(buf.skip(i + 4)),
        None => None,
    }
}

/// What stands behind the first blank line that a connection hands over is what
/// the console begins with, byte for byte.
pub proof fn law_blank_line_ends_the_head(head: Seq<u8>, rest: Seq<u8>)
    requires
        forall|j: int|
            0 <= j < head.len() ==> !search::occurs_at(
                head + seq![13u8, 10u8, 13u8, 10u8] + rest,
                seq![13u8, 10u8, 13u8, 10u8],
                j,
            ),
    ensures
        behind_head(head + seq![13u8, 10u8, 13u8, 10u8] + rest) == Some(rest),
{
    let blank = seq![13u8, 10u8, 13u8, 10u8];
    let buf = head + blank + rest;
    assert(http::crlf() + http::crlf() =~= blank);
    assert(buf.subrange(head.len() as int, head.len() as int + 4) =~= blank);
    assert(search::occurs_at(buf, blank, head.len() as int));
    search::lemma_first_index_is(buf, blank, head.len() as int);
    assert(buf.skip(head.len() as int + 4) =~= rest);
}

/// Responses that cannot be read for different reasons are reported in different
/// words.
pub proof fn law_unreadable_responses_are_told_apart(a: ResponseError, b: ResponseError)
    ensures
        response_error_text(a) == response_error_text(b) <==> a == b,
{
    reveal_strlit("parse docker api response");
    reveal_strlit("docker api response headers incomplete");
    reveal_strlit("docker api response missing status code");
    reveal_strlit("chunked body: missing chunk-size line");
    reveal_strlit("chunked body: chunk size not UTF-8");
    reveal_strlit("chunked body: invalid chunk size");
    reveal_strlit("chunked body: truncated chunk");
    if response_error_text(a) == response_error_text(b) {
        assert(response_error_text(a).len() == response_error_text(b).len());
    }
}

/// Whether a reply is taken as asked for: exactly if its status is among those that
/// were asked for, and then with its whole body.
pub open spec fn is_expected(out: Result<Vec<u8>, String>, ok: Seq<u16>, status: u16, body: Vec<u8>) -> bool {
    match out {
        Ok(taken) => ok.contains(status) && taken == body,
        Err(_) => !ok.contains(status),
    }
}

/// A status that was asked for, wherever it stands among those, gives the whole body
/// of the reply; a reply with any other status gives none.
pub proof fn law_expected_replies_give_their_bodies(
    out: Result<Vec<u8>, String>,
    ok: Seq<u16>,
    status: u16,
    body: Vec<u8>,
    i: int,
)
    requires
        is_expected(out, ok, status, body),
    ensures
        0 <= i < ok.len() && ok[i] == status ==> (out matches Ok(taken) && taken@ == body@),
        out is Ok ==> exists|j: int| 0 <= j < ok.len() && #[trigger] ok[j] == status,
{
}

/// Whether ports have been freed once a step has been decided on.
pub open spec fn freed_after(freed: bool, step: StartStep) -> bool {
    freed || step is FreePorts
}

/// Ports are freed once for a start: where the engine still says that one is taken,
/// the start fails with what it says.
pub proof fn law_ports_are_freed_once(
    freed: bool,
    id: Seq<char>,
    status: u16,
    error: Seq<char>,
    step: StartStep,
    later: u16,
    later_error: Seq<char>,
    later_step: StartStep,
)
    requires
        is_start_step(step, freed, id, status, error),
        is_start_step(later_step, freed_after(freed, step), id, later, later_error),
    ensures
        step is FreePorts ==> !(later_step is FreePorts),
        step is FreePorts && later != 204 && later != 304 ==> later_step is Failed,
        later == 204 || later == 304 ==> later_step is Started,
        !(step is FreePorts) ==> freed_after(freed, step) == freed,
{
}

} // verus!
