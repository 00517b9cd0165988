//! Minimal streaming HTTP client: requests, recorded requests and response bodies.

use crate::decimal;
use crate::error::Error;
use crate::error::ErrorText;
use crate::json;
use crate::json::JsonValue;
use crate::text;
use crate::time::Duration;
use vstd::prelude::*;

verus! {

broadcast use vstd::string::group_string_axioms;

/// How the client names itself.
pub const DEFAULT_USER_AGENT: &'static str = "pi_agent_rust/0.1.0";

/// The environment variable with the version of Antigravity.
pub const ANTIGRAVITY_VERSION_ENV: &'static str = "PI_AI_ANTIGRAVITY_VERSION";

/// The environment variable with the number of seconds that a request may take.
pub const REQUEST_TIMEOUT_ENV: &'static str = "PI_HTTP_REQUEST_TIMEOUT_SECS";

/// How many bytes the text of a response may have.
pub const MAX_TEXT_BODY_BYTES: usize = 50 * 1024 * 1024;

/// How many seconds a request may take, where nothing else is said.
pub const DEFAULT_REQUEST_TIMEOUT_SECS: u64 = 60;

// ----------------------------------------------------------------------------
// Settings
// ----------------------------------------------------------------------------

/// How many seconds a setting allows. A setting that is no number counts for nothing.
pub open spec fn timeout_secs(raw: Option<Seq<char>>) -> nat {
    match raw {
        Some(s) => match decimal::parsed(text::trim(s), u64::MAX as nat) {
            Some(n) => n,
            None => DEFAULT_REQUEST_TIMEOUT_SECS as nat,
        },
        None => DEFAULT_REQUEST_TIMEOUT_SECS as nat,
    }
}

/// The timeout that a setting asks for. Zero asks for none.
pub open spec fn timeout_for(raw: Option<Seq<char>>) -> Option<Duration> {
    if timeout_secs(raw) == 0 {
        None
    } else {
        Some(Duration { secs: timeout_secs(raw) as u64, nanos: 0 })
    }
}

/// How the client names itself, given the version of Antigravity.
pub open spec fn user_agent_for(antigravity: Option<Seq<char>>) -> Seq<char> {
    match antigravity {
        Some(v) => DEFAULT_USER_AGENT@ + " Antigravity/"@ + v,
        None => DEFAULT_USER_AGENT@,
    }
}

/// The timeout that the environment asks for, given what the variable holds.
pub fn default_request_timeout(raw: Option<&str>) -> (r: Option<Duration>)
    ensures
        r == timeout_for(text::opt_str(raw)),
{
    let secs: u64 = match raw {
        Some(s) => {
            let core = text::trim_str(s);
            match decimal::parse_u64(core.as_str()) {
                Some(n) => n,
                None => DEFAULT_REQUEST_TIMEOUT_SECS,
            }
        },
        None => DEFAULT_REQUEST_TIMEOUT_SECS,
    };
    if secs == 0 {
        None
    } else {
        Some(Duration::from_secs(secs))
    }
}

/// How the client names itself, given the version of Antigravity.
pub fn build_user_agent(antigravity: Option<&str>) -> (r: String)
    ensures
        r@ == user_agent_for(text::opt_str(antigravity)),
{
    match antigravity {
        Some(v) => text::concat3(DEFAULT_USER_AGENT, " Antigravity/", v),
        None => DEFAULT_USER_AGENT.to_owned(),
    }
}

// ----------------------------------------------------------------------------
// The client
// ----------------------------------------------------------------------------

/// What a recorder does.
#[derive(Debug, Clone, Copy, PartialEq, Eq, Structural)]
pub enum VcrMode {
    /// Sends requests and records the responses.
    Record,
    /// Answers requests from the recording.
    Playback,
    /// Answers requests from the recording where there is one, and records them otherwise.
    Auto,
}

/// What records requests and their responses.
#[derive(Debug, Clone)]
pub struct VcrRecorder {
    /// The name of the recording.
    pub name: String,
    /// What the recorder does.
    pub mode: VcrMode,
    /// Where the recording is kept.
    pub dir: String,
}

impl VcrRecorder {
    /// A recorder.
    pub fn new_with(name: &str, mode: VcrMode, dir: &str) -> (r: VcrRecorder)
        ensures
            r.name@ == name@,
            r.mode == mode,
            r.dir@ == dir@,
    {
        VcrRecorder { name: name.to_owned(), mode, dir: dir.to_owned() }
    }
}

/// An HTTP client.
#[derive(Debug, Clone)]
pub struct Client {
    user_agent: String,
    timeout: Option<Duration>,
    vcr: Option<VcrRecorder>,
}

/// What a client is set to.
pub struct ClientModel {
    /// How the client names itself.
    pub user_agent: Seq<char>,
    /// How long its requests may take.
    pub timeout: Option<Duration>,
    /// What records its requests.
    pub vcr: Option<VcrRecorder>,
}

impl View for Client {
    type V = ClientModel;

    closed spec fn view(&self) -> ClientModel {
        ClientModel { user_agent: self.user_agent@, timeout: self.timeout, vcr: self.vcr }
    }
}

impl Client {
    /// A client, given what the environment says of the version of Antigravity and of the
    /// timeout.
    #[must_use]
    pub fn new(antigravity: Option<&str>, timeout: Option<&str>) -> (r: Client)
        ensures
            r@ == (ClientModel {
                user_agent: user_agent_for(text::opt_str(antigravity)),
                timeout: timeout_for(text::opt_str(timeout)),
                vcr: None,
            }),
    {
        Client {
            user_agent: build_user_agent(antigravity),
            timeout: default_request_timeout(timeout),
            vcr: None,
        }
    }

    /// How the client names itself.
    #[must_use]
    pub fn user_agent(&self) -> (r: &str)
        ensures
            r@ == self@.user_agent,
    {
        self.user_agent.as_str()
    }

    /// A request that posts to a URL.
    pub fn post(&self, url: &str) -> (r: RequestBuilder<'_>)
        ensures
            r.is_fresh(self, Method::Post, url@),
    {
        RequestBuilder::new(self, Method::Post, url)
    }

    /// A request that gets a URL.
    pub fn get(&self, url: &str) -> (r: RequestBuilder<'_>)
        ensures
            r.is_fresh(self, Method::Get, url@),
    {
        RequestBuilder::new(self, Method::Get, url)
    }

    /// The same client with a recorder.
    #[must_use]
    pub fn with_vcr(self, recorder: VcrRecorder) -> (r: Client)
        ensures
            r@ == (ClientModel { vcr: Some(recorder), ..self@ }),
    {
        Client { user_agent: self.user_agent, timeout: self.timeout, vcr: Some(recorder) }
    }

    /// The recorder.
    pub fn vcr(&self) -> (r: Option<&VcrRecorder>)
        ensures
            match r {
                Some(recorder) => self@.vcr == Some(*recorder),
                None => self@.vcr is None,
            },
    {
        self.vcr.as_ref()
    }
}

/// What a request does.
#[derive(Debug, Clone, Copy, PartialEq, Eq, Structural)]
pub enum Method {
    /// Gets something.
    Get,
    /// Posts something.
    Post,
}

/// The name of a method.
pub open spec fn method_name(method: Method) -> Seq<char> {
    match method {
        Method::Get => "GET"@,
        Method::Post => "POST"@,
    }
}

impl Method {
    /// The name of the method.
    pub fn as_str(self) -> (r: &'static str)
        ensures
            r@ == method_name(self),
    {
        match self {
            Method::Get => "GET",
            Method::Post => "POST",
        }
    }
}

// ----------------------------------------------------------------------------
// Requests
// ----------------------------------------------------------------------------

/// A request that is being put together.
pub struct RequestBuilder<'a> {
    /// The client that will send it.
    pub client: &'a Client,
    /// What it does.
    pub method: Method,
    /// Where it goes.
    pub url: String,
    /// Its headers.
    pub headers: Vec<(String, String)>,
    /// Its body.
    pub body: Vec<u8>,
    /// How long it may take.
    pub timeout: Option<Duration>,
}

impl<'a> RequestBuilder<'a> {
    /// Whether nothing but the method and the URL has been said of the request yet.
    pub open spec fn is_fresh(self, client: &Client, method: Method, url: Seq<char>) -> bool {
        &&& *self.client == *client
        &&& self.method == method
        &&& self.url@ == url
        &&& self.headers@.len() == 0
        &&& self.body@.len() == 0
        &&& self.timeout == client@.timeout
    }

    fn new(client: &'a Client, method: Method, url: &str) -> (r: RequestBuilder<'a>)
        ensures
            r.is_fresh(client, method, url@),
    {
        RequestBuilder {
            client,
            method,
            url: url.to_owned(),
            headers: Vec::new(),
            body: Vec::new(),
            timeout: client.timeout,
        }
    }

    /// The same request with one more header.
    #[must_use]
    pub fn header(self, key: &str, value: &str) -> (r: RequestBuilder<'a>)
        ensures
            r == (RequestBuilder { headers: r.headers, ..self }),
            text::pairs(r.headers@) == text::pairs(self.headers@).push((key@, value@)),
    {
        let mut headers = self.headers;
        headers.push((key.to_owned(), value.to_owned()));
        RequestBuilder {
            client: self.client,
            method: self.method,
            url: self.url,
            headers,
            body: self.body,
            timeout: self.timeout,
        }
    }

    /// The same request with a timeout.
    #[must_use]
    pub fn timeout(self, duration: Duration) -> (r: RequestBuilder<'a>)
        ensures
            r == (RequestBuilder { timeout: Some(duration), ..self }),
    {
        RequestBuilder { timeout: Some(duration), ..self }
    }

    /// The same request without a timeout. This is for requests that are expected to take
    /// arbitrarily long.
    #[must_use]
    pub fn no_timeout(self) -> (r: RequestBuilder<'a>)
        ensures
            r == (RequestBuilder { timeout: None, ..self }),
    {
        RequestBuilder { timeout: None, ..self }
    }

    /// The same request with raw bytes for body.
    #[must_use]
    pub fn body(self, body: Vec<u8>) -> (r: RequestBuilder<'a>)
        ensures
            r == (RequestBuilder { body, ..self }),
    {
        RequestBuilder { body, ..self }
    }

    /// The same request with JSON for body, given what encoding the payload gave. It gets a
    /// header that says so.
    pub fn json(self, encoded: Result<JsonValue, Error>) -> (r: Result<RequestBuilder<'a>, Error>)
        ensures
            match encoded {
                Ok(payload) => {
                    &&& r is Ok
                    &&& r->Ok_0 == (RequestBuilder {
                        headers: r->Ok_0.headers,
                        body: r->Ok_0.body,
                        ..self
                    })
                    &&& text::pairs(r->Ok_0.headers@) == text::pairs(self.headers@).push(
                        ("Content-Type"@, "application/json"@),
                    )
                    &&& r->Ok_0.body@ == vstd::utf8::encode_utf8(payload@)
                },
                Err(e) => r == Err::<RequestBuilder<'a>, Error>(e),
            },
    {
        match encoded {
            Ok(payload) => {
                let with_header = self.header("Content-Type", "application/json");
                let bytes = vstd::slice::slice_to_vec(payload.text.as_str().as_bytes());
                Ok(with_header.body(bytes))
            },
            Err(e) => Err(e),
        }
    }
}

/// A request as it is recorded.
#[derive(Debug, Clone)]
pub struct RecordedRequest {
    /// The name of the method.
    pub method: String,
    /// Where the request goes.
    pub url: String,
    /// The headers.
    pub headers: Vec<(String, String)>,
    /// The body, where it is JSON.
    pub body: Option<JsonValue>,
    /// The body, where it is not.
    pub body_text: Option<String>,
}

/// What a recorded request says.
#[verifier::ext_equal]
pub struct RecordedModel {
    /// The name of the method.
    pub method: Seq<char>,
    /// Where the request goes.
    pub url: Seq<char>,
    /// The headers.
    pub headers: Seq<(Seq<char>, Seq<char>)>,
    /// The body, where it is JSON.
    pub body: Option<Seq<char>>,
    /// The body, where it is not.
    pub body_text: Option<Seq<char>>,
}

impl View for RecordedRequest {
    type V = RecordedModel;

    open spec fn view(&self) -> RecordedModel {
        RecordedModel {
            method: self.method@,
            url: self.url@,
            headers: text::pairs(self.headers@),
            body: json::opt_json(self.body),
            body_text: text::opt_text(self.body_text),
        }
    }
}

/// Whether a header says that the body is JSON.
pub open spec fn announces_json(header: (Seq<char>, Seq<char>)) -> bool {
    &&& text::same_ignoring_case(header.0, "content-type"@)
    &&& text::contains(text::ascii_lower(header.1), "application/json"@)
}

/// Whether some header says that the body is JSON.
pub open spec fn says_json(headers: Seq<(Seq<char>, Seq<char>)>) -> bool {
    exists|i: int| 0 <= i < headers.len() && announces_json(#[trigger] headers[i])
}

/// A request as it is recorded, given the JSON value that its body holds, if it holds one.
///
/// The body is recorded as a value where the headers say that it is JSON and it is. Any other
/// body that is not empty is recorded as text.
pub open spec fn recorded(
    method: Method,
    url: Seq<char>,
    headers: Seq<(Seq<char>, Seq<char>)>,
    body: Seq<u8>,
    value: Option<Seq<char>>,
) -> RecordedModel {
    let as_json = body.len() > 0 && says_json(headers) && value is Some;
    RecordedModel {
        method: method_name(method),
        url,
        headers,
        body: if as_json {
            value
        } else {
            None
        },
        body_text: if body.len() > 0 && !as_json {
            Some(text::lossy(body))
        } else {
            None
        },
    }
}

fn has_json_header(headers: &[(String, String)]) -> (r: bool)
    ensures
        r == says_json(text::pairs(headers@)),
{
    let mut i: usize = 0;
    while i < headers.len()
        invariant
            i <= headers@.len(),
            forall|j: int| 0 <= j < i ==> !announces_json(#[trigger] text::pairs(headers@)[j]),
        decreases headers@.len() - i,
    {
        if text::eq_ignore_ascii_case(headers[i].0.as_str(), "content-type") {
            let value = text::to_ascii_lowercase(headers[i].1.as_str());
            let chars = text::chars_of(value.as_str());
            if text::contains_str(chars.as_slice(), "application/json") {
                assert(announces_json(text::pairs(headers@)[i as int]));
                return true;
            }
        }
        i = i + 1;
    }
    false
}

/// A request as it is recorded, given the JSON value that its body holds, if it holds one.
pub fn recorded_with(
    method: Method,
    url: &str,
    headers: &[(String, String)],
    body: &[u8],
    value: Option<JsonValue>,
) -> (r: RecordedRequest)
    ensures
        r@ == recorded(method, url@, text::pairs(headers@), body@, json::opt_json(value)),
{
    let mut body_value: Option<JsonValue> = None;
    let mut body_text: Option<String> = None;
    if body.len() > 0 {
        if has_json_header(headers) && value.is_some() {
            body_value = value;
        } else {
            body_text = Some(text::from_utf8_lossy(body));
        }
    }
    RecordedRequest {
        method: method.as_str().to_owned(),
        url: url.to_owned(),
        headers: text::copy_pairs(headers),
        body: body_value,
        body_text,
    }
}

/// A request as it is recorded.
pub fn build_recorded_request(
    method: Method,
    url: &str,
    headers: &[(String, String)],
    body: &[u8],
) -> (r: RecordedRequest)
    ensures
        r@ == recorded(method, url@, text::pairs(headers@), body@, json::json_text(body@)),
{
    recorded_with(method, url, headers, body, json::parse_json(body))
}

/// A request that is ready to be sent.
pub struct OutgoingRequest {
    /// What it does.
    pub method: Method,
    /// Where it goes.
    pub url: String,
    /// Its headers.
    pub headers: Vec<(String, String)>,
    /// Its body, if it has one.
    pub body: Option<Vec<u8>>,
    /// How long it may take.
    pub timeout: Option<Duration>,
    /// The request as it is recorded, where the client has a recorder. The recorder then decides
    /// whether it is sent.
    pub recorded: Option<RecordedRequest>,
}

impl<'a> RequestBuilder<'a> {
    /// The request, ready to be sent.
    pub fn send(self) -> (r: OutgoingRequest)
        ensures
            r.method == self.method,
            r.url == self.url,
            r.headers == self.headers,
            r.timeout == self.timeout,
            match r.body {
                Some(body) => self.body@.len() > 0 && body@ == self.body@,
                None => self.body@.len() == 0,
            },
            match r.recorded {
                Some(request) => {
                    &&& self.client@.vcr is Some
                    &&& request@ == recorded(
                        self.method,
                        self.url@,
                        text::pairs(self.headers@),
                        self.body@,
                        json::json_text(self.body@),
                    )
                },
                None => self.client@.vcr is None,
            },
    {
        let recorded = match self.client.vcr() {
            Some(_) => Some(
                build_recorded_request(
                    self.method,
                    self.url.as_str(),
                    self.headers.as_slice(),
                    self.body.as_slice(),
                ),
            ),
            None => None,
        };
        let body = if self.body.len() > 0 {
            Some(self.body)
        } else {
            None
        };
        OutgoingRequest {
            method: self.method,
            url: self.url,
            headers: self.headers,
            body,
            timeout: self.timeout,
            recorded,
        }
    }
}

/// The error where a request failed.
pub fn request_error(timed_out: bool, detail: &str) -> (r: Error)
    ensures
        r@ == ErrorText::Api(
            if timed_out {
                "Request timed out"@
            } else {
                "HTTP request failed: "@ + detail@
            },
        ),
{
    if timed_out {
        Error::Api("Request timed out".to_owned())
    } else {
        Error::Api(text::concat2("HTTP request failed: ", detail))
    }
}

/// The value of a response header. One that is not text counts as empty.
pub fn header_value(value: Option<&str>) -> (r: String)
    ensures
        r@ == match value {
            Some(v) => v@,
            None => Seq::empty(),
        },
{
    match value {
        Some(v) => v.to_owned(),
        None => String::new(),
    }
}

// ----------------------------------------------------------------------------
// Responses
// ----------------------------------------------------------------------------

/// What a read from the body of a response gave: bytes, or what went wrong.
pub enum Chunk {
    /// Bytes.
    Bytes(Seq<u8>),
    /// What went wrong.
    Failure(Seq<char>),
}

/// What a read gave.
pub open spec fn chunk_view(chunk: Result<Vec<u8>, String>) -> Chunk {
    match chunk {
        Ok(bytes) => Chunk::Bytes(bytes@),
        Err(e) => Chunk::Failure(e@),
    }
}

/// What each read of a sequence gave.
pub open spec fn chunk_views(v: Seq<Result<Vec<u8>, String>>) -> Seq<Chunk> {
    Seq::new(v.len(), |i: int| chunk_view(v[i]))
}

/// What the body holds after one more read.
pub open spec fn extended(body: Seq<u8>, chunk: Chunk) -> Result<Seq<u8>, Seq<char>> {
    match chunk {
        Chunk::Bytes(bytes) => if body.len() + bytes.len() > MAX_TEXT_BODY_BYTES {
            Err("response body too large"@)
        } else {
            Ok(body + bytes)
        },
        Chunk::Failure(e) => Err(e),
    }
}

/// What the body holds after all reads, up to the first failure.
pub open spec fn gathered(chunks: Seq<Chunk>) -> Result<Seq<u8>, Seq<char>>
    decreases chunks.len(),
{
    if chunks.len() == 0 {
        Ok(Seq::empty())
    } else {
        match gathered(chunks.drop_last()) {
            Ok(body) => extended(body, chunks.last()),
            Err(e) => Err(e),
        }
    }
}

/// The body of a response, while it is being read.
pub struct BodyText {
    bytes: Vec<u8>,
}

impl View for BodyText {
    type V = Seq<u8>;

    closed spec fn view(&self) -> Seq<u8> {
        self.bytes@
    }
}

impl BodyText {
    /// A body of which nothing has been read.
    pub fn new() -> (r: BodyText)
        ensures
            r@ == Seq::<u8>::empty(),
    {
        BodyText { bytes: Vec::new() }
    }

    /// Adds what a read gave. A body that becomes too large is an error, as is a failed read.
    pub fn push(&mut self, chunk: Result<Vec<u8>, String>) -> (r: Result<(), Error>)
        ensures
            match r {
                Ok(()) => extended(old(self)@, chunk_view(chunk)) == Ok::<Seq<u8>, Seq<char>>(
                    final(self)@,
                ),
                Err(e) => {
                    &&& final(self)@ == old(self)@
                    &&& extended(old(self)@, chunk_view(chunk)) is Err
                    &&& e@ == ErrorText::Io(extended(old(self)@, chunk_view(chunk))->Err_0)
                },
            },
    {
        match chunk {
            Ok(bytes) => {
                let held: usize = self.bytes.len();
                let more: usize = bytes.len();
                if held > MAX_TEXT_BODY_BYTES || more > MAX_TEXT_BODY_BYTES - held {
                    return Err(Error::Io("response body too large".to_owned()));
                }
                let mut bytes = bytes;
                self.bytes.append(&mut bytes);
                Ok(())
            },
            Err(e) => Err(Error::Io(e)),
        }
    }

    /// The text of what has been read.
    pub fn into_text(self) -> (r: String)
        ensures
            r@ == text::lossy(self@),
    {
        text::from_utf8_lossy(self.bytes.as_slice())
    }
}

/// A response.
pub struct Response {
    /// The status code.
    pub status: u16,
    /// The headers.
    pub headers: Vec<(String, String)>,
    /// What the reads from the body give, in order.
    pub chunks: Vec<Result<Vec<u8>, String>>,
}

impl Response {
    /// The status code.
    #[must_use]
    pub fn status(&self) -> (r: u16)
        ensures
            r == self.status,
    {
        self.status
    }

    /// The headers.
    #[must_use]
    pub fn headers(&self) -> (r: &[(String, String)])
        ensures
            r@ == self.headers@,
    {
        self.headers.as_slice()
    }

    /// What the reads from the body give, in order.
    #[must_use]
    pub fn bytes_stream(self) -> (r: Vec<Result<Vec<u8>, String>>)
        ensures
            r == self.chunks,
    {
        self.chunks
    }

    /// The body as text.
    pub fn text(self) -> (r: Result<String, Error>)
        ensures
            match gathered(chunk_views(self.chunks@)) {
                Ok(body) => r is Ok && r->Ok_0@ == text::lossy(body),
                Err(e) => r is Err && r->Err_0@ == ErrorText::Io(e),
            },
    {
        let ghost all = chunk_views(self.chunks@);
        let mut body = BodyText::new();
        let mut i: usize = 0;
        while i < self.chunks.len()
            invariant
                i <= self.chunks@.len(),
                all == chunk_views(self.chunks@),
                gathered(all.take(i as int)) == Ok::<Seq<u8>, Seq<char>>(body@),
            decreases self.chunks@.len() - i,
        {
            assert(all.take(i + 1).drop_last() =~= all.take(i as int));
            let chunk = copy_chunk(&self.chunks[i]);
            match body.push(chunk) {
                Ok(()) => {},
                Err(e) => {
                    proof {
                        lemma_failure_stays(all, i + 1);
                    }
                    return Err(e);
                },
            }
            i = i + 1;
        }
        assert(all.take(all.len() as int) =~= all);
        Ok(body.into_text())
    }
}

fn copy_chunk(chunk: &Result<Vec<u8>, String>) -> (r: Result<Vec<u8>, String>)
    ensures
        chunk_view(r) == chunk_view(*chunk),
{
    match chunk {
        Ok(bytes) => Ok(vstd::slice::slice_to_vec(bytes.as_slice())),
        Err(e) => Err(e.clone()),
    }
}

proof fn lemma_failure_stays(chunks: Seq<Chunk>, n: int)
    requires
        0 <= n <= chunks.len(),
        gathered(chunks.take(n)) is Err,
    ensures
        gathered(chunks) == gathered(chunks.take(n)),
    decreases chunks.len() - n,
{
    if n == chunks.len() {
        assert(chunks.take(n) =~= chunks);
    } else {
        assert(chunks.take(n + 1).drop_last() =~= chunks.take(n));
        lemma_failure_stays(chunks, n + 1);
    }
}

// ----------------------------------------------------------------------------
// Laws
// ----------------------------------------------------------------------------

/// Whatever the environment says, the client names itself first.
pub proof fn law_client_names_itself(antigravity: Option<Seq<char>>)
    ensures
        text::starts_with(user_agent_for(antigravity), DEFAULT_USER_AGENT@),
{
    let name = DEFAULT_USER_AGENT@;
    let all = user_agent_for(antigravity);
    assert(all.subrange(0, name.len() as int) =~= name);
}

/// The bytes of chunks, one after the other.
pub open spec fn all_bytes(chunks: Seq<Chunk>) -> Seq<u8>
    decreases chunks.len(),
{
    if chunks.len() == 0 {
        Seq::empty()
    } else {
        match chunks.last() {
            Chunk::Bytes(bytes) => all_bytes(chunks.drop_last()) + bytes,
            Chunk::Failure(_) => all_bytes(chunks.drop_last()),
        }
    }
}

/// A body is read to its end exactly where no read fails and it is not too large. What has been
/// read is then all of it.
pub proof fn law_body_is_read_in_full(chunks: Seq<Chunk>)
    ensures
        gathered(chunks) is Ok <==> {
            &&& forall|i: int| 0 <= i < chunks.len() ==> #[trigger] chunks[i] is Bytes
            &&& all_bytes(chunks).len() <= MAX_TEXT_BODY_BYTES
        },
        gathered(chunks) is Ok ==> gathered(chunks)->Ok_0 == all_bytes(chunks),
    decreases chunks.len(),
{
    if chunks.len() > 0 {
        let front = chunks.drop_last();
        law_body_is_read_in_full(front);
        if gathered(chunks) is Ok {
            assert forall|i: int| 0 <= i < chunks.len() implies #[trigger] chunks[i] is Bytes by {
                if i < front.len() {
                    assert(front[i] is Bytes);
                }
            }
        }
    }
}

/// A body that is recorded is recorded once: as a value or as text.
pub proof fn law_body_is_recorded_once(
    method: Method,
    url: Seq<char>,
    headers: Seq<(Seq<char>, Seq<char>)>,
    body: Seq<u8>,
    value: Option<Seq<char>>,
)
    ensures
        ({
            let r = recorded(method, url, headers, body, value);
            &&& !(r.body is Some && r.body_text is Some)
            &&& (r.body is Some || r.body_text is Some) == (body.len() > 0)
        }),
{
}

/// A timeout is the number of seconds that is written, with white space around it or not. Zero asks
/// for none.
pub proof fn law_timeouts_are_read(before: Seq<char>, n: nat, after: Seq<char>)
    requires
        text::blank(before),
        text::blank(after),
        n <= u64::MAX,
    ensures
        n == 0 ==> timeout_for(Some(before + decimal::numeral(n) + after)) is None,
        n > 0 ==> timeout_for(Some(before + decimal::numeral(n) + after)) == Some(
            Duration { secs: n as u64, nanos: 0 },
        ),
{
    let s = decimal::numeral(n);
    decimal::law_numerals_are_shortest(n);
    assert('0' <= s[0] <= '9');
    assert('0' <= s[s.len() - 1] <= '9');
    text::law_trim_takes_what_surrounds(before, s, after);
    decimal::law_parse_reads_what_was_written(n, u64::MAX as nat);
}

/// Where no number is written, a request may take one minute.
pub proof fn law_requests_take_a_minute_by_default(raw: Seq<char>)
    ensures
        timeout_for(None) == Some(Duration { secs: 60, nanos: 0 }),
        (forall|n: nat| decimal::parsed(text::trim(raw), u64::MAX as nat) != Some(n)) ==> timeout_for(
            Some(raw),
        ) == Some(Duration { secs: 60, nanos: 0 }),
{
    let parsed = decimal::parsed(text::trim(raw), u64::MAX as nat);
    if parsed is Some {
        assert(parsed == Some(parsed->0));
    }
}

/// The client names itself, and the version of Antigravity behind that, where one is given.
pub proof fn law_client_names_antigravity(version: Seq<char>)
    ensures
        user_agent_for(None) == "pi_agent_rust/0.1.0"@,
        user_agent_for(Some(version)) == "pi_agent_rust/0.1.0"@ + " Antigravity/"@ + version,
{
}

/// The names of the methods.
pub proof fn law_methods_have_names(method: Method)
    ensures
        method is Get ==> method_name(method) == "GET"@,
        method is Post ==> method_name(method) == "POST"@,
{
}

/// A new request goes where it is sent to, with the method that is asked for and the timeout of its
/// client, and has neither headers nor a body.
pub proof fn law_new_requests_are_bare<'a>(
    request: RequestBuilder<'a>,
    client: &'a Client,
    method: Method,
    url: Seq<char>,
)
    requires
        request.is_fresh(client, method, url),
    ensures
        *request.client == *client,
        request.method == method,
        request.url@ == url,
        request.timeout == client@.timeout,
        request.headers@ == Seq::<(String, String)>::empty(),
        request.body@ == Seq::<u8>::empty(),
{
    assert(request.headers@ =~= Seq::<(String, String)>::empty());
    assert(request.body@ =~= Seq::<u8>::empty());
}

/// A header says that the body is JSON exactly where it is the content type and its value mentions
/// JSON, both in any case. One such header is enough.
pub proof fn law_content_type_says_json(
    headers: Seq<(Seq<char>, Seq<char>)>,
    key: Seq<char>,
    value: Seq<char>,
)
    ensures
        !says_json(Seq::empty()),
        says_json(headers) ==> says_json(headers.push((key, value))),
        text::same_ignoring_case(key, "content-type"@) && text::contains(
            text::ascii_lower(value),
            "application/json"@,
        ) ==> says_json(headers.push((key, value))),
        !(text::same_ignoring_case(key, "content-type"@) && text::contains(
            text::ascii_lower(value),
            "application/json"@,
        )) ==> says_json(headers.push((key, value))) == says_json(headers),
{
    let more = headers.push((key, value));
    assert(more[headers.len() as int] == (key, value));
    if says_json(headers) {
        let i = choose|i: int| 0 <= i < headers.len() && announces_json(#[trigger] headers[i]);
        assert(announces_json(more[i]));
    }
    if announces_json((key, value)) {
        assert(announces_json(more[headers.len() as int]));
    }
    if says_json(more) {
        let i = choose|i: int| 0 <= i < more.len() && announces_json(#[trigger] more[i]);
        if i < headers.len() {
            assert(announces_json(headers[i]));
        }
    }
}

/// A request is recorded with its method, its URL and all its headers. Its body is recorded as a
/// value where the headers say that it is JSON and it is, as text where it is anything else, and not
/// at all where it is empty.
pub proof fn law_requests_are_recorded_as_sent(
    method: Method,
    url: Seq<char>,
    headers: Seq<(Seq<char>, Seq<char>)>,
    body: Seq<u8>,
    value: Option<Seq<char>>,
)
    ensures
        recorded(method, url, headers, body, value).method == method_name(method),
        recorded(method, url, headers, body, value).url == url,
        recorded(method, url, headers, body, value).headers == headers,
        body.len() == 0 ==> recorded(method, url, headers, body, value).body is None && recorded(
            method,
            url,
            headers,
            body,
            value,
        ).body_text is None,
        body.len() > 0 && says_json(headers) && value is Some ==> recorded(
            method,
            url,
            headers,
            body,
            value,
        ).body == value && recorded(method, url, headers, body, value).body_text is None,
        body.len() > 0 && !(says_json(headers) && value is Some) ==> recorded(
            method,
            url,
            headers,
            body,
            value,
        ).body is None && recorded(method, url, headers, body, value).body_text == Some(
            text::lossy(body),
        ),
{
}

/// A body that is added to becomes longer by just what was read, and what is too large or could not
/// be read is told, whatever follows. At most 50 megabytes are read.
pub proof fn law_reads_are_put_together(
    chunks: Seq<Chunk>,
    bytes: Seq<u8>,
    failure: Seq<char>,
    more: Chunk,
)
    ensures
        gathered(Seq::empty()) == Ok::<Seq<u8>, Seq<char>>(Seq::empty()),
        gathered(chunks) is Err ==> gathered(chunks.push(more)) == gathered(chunks),
        gathered(chunks) is Ok ==> gathered(chunks.push(Chunk::Failure(failure))) == Err::<
            Seq<u8>,
            Seq<char>,
        >(failure),
        gathered(chunks) is Ok && gathered(chunks)->Ok_0.len() + bytes.len() <= 52_428_800
            ==> gathered(chunks.push(Chunk::Bytes(bytes))) == Ok::<Seq<u8>, Seq<char>>(
            gathered(chunks)->Ok_0 + bytes,
        ),
        gathered(chunks) is Ok && gathered(chunks)->Ok_0.len() + bytes.len() > 52_428_800
            ==> gathered(chunks.push(Chunk::Bytes(bytes))) == Err::<Seq<u8>, Seq<char>>(
            "response body too large"@,
        ),
{
    assert(chunks.push(more).drop_last() =~= chunks);
    assert(chunks.push(Chunk::Failure(failure)).drop_last() =~= chunks);
    assert(chunks.push(Chunk::Bytes(bytes)).drop_last() =~= chunks);
    assert(MAX_TEXT_BODY_BYTES == 52_428_800);
}

/// One read adds its bytes to what is there, unless that becomes too large, and a failed read is
/// told.
pub proof fn law_one_read_adds_its_bytes(body: Seq<u8>, bytes: Seq<u8>, failure: Seq<char>)
    ensures
        body.len() + bytes.len() <= 52_428_800 ==> extended(body, Chunk::Bytes(bytes)) == Ok::<
            Seq<u8>,
            Seq<char>,
        >(body + bytes),
        body.len() + bytes.len() > 52_428_800 ==> extended(body, Chunk::Bytes(bytes)) == Err::<
            Seq<u8>,
            Seq<char>,
        >("response body too large"@),
        extended(body, Chunk::Failure(failure)) == Err::<Seq<u8>, Seq<char>>(failure),
{
    assert(MAX_TEXT_BODY_BYTES == 52_428_800);
}

/// The text of a body is the text that was encoded in it.
pub proof fn law_encoded_text_is_read_back(s: Seq<char>)
    ensures
        text::lossy(vstd::utf8::encode_utf8(s)) == s,
{
    vstd::utf8::encode_utf8_valid_utf8(s);
    vstd::utf8::encode_utf8_decode_utf8(s);
}

/// What a read gave is what it says, and so does a recorded request.
pub proof fn law_reads_and_requests_say_what_they_hold(
    bytes: Vec<u8>,
    failure: String,
    chunks: Seq<Result<Vec<u8>, String>>,
    i: int,
    request: RecordedRequest,
)
    ensures
        chunk_view(Ok(bytes)) == Chunk::Bytes(bytes@),
        chunk_view(Err(failure)) == Chunk::Failure(failure@),
        chunk_views(chunks).len() == chunks.len(),
        0 <= i < chunks.len() ==> chunk_views(chunks)[i] == chunk_view(chunks[i]),
        request@.method == request.method@,
        request@.url == request.url@,
        request@.headers == text::pairs(request.headers@),
        request@.body == json::opt_json(request.body),
        request@.body_text == text::opt_text(request.body_text),
{
}

/// The variables of the environment that set up a client.
pub proof fn law_environment_sets_up_the_client()
    ensures
        ANTIGRAVITY_VERSION_ENV@ == "PI_AI_ANTIGRAVITY_VERSION"@,
        REQUEST_TIMEOUT_ENV@ == "PI_HTTP_REQUEST_TIMEOUT_SECS"@,
{
}

} // verus!
