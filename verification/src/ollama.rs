//! The decisions of the local Ollama client: endpoint and model checks, model
//! availability, NDJSON framing of the streamed reply and decoding of each frame.
//! HTTP transport and JSON decoding are left to the application.
use vstd::prelude::*;

use crate::message::{Message, MessageView};
use crate::text::{chars_of, split_by, string_from, trim, trimmed};

verus! {

/// A model advertised by `/api/tags`.
#[derive(Debug, Clone, PartialEq, Eq)]
pub struct ModelInfo {
    /// Ollama model name including optional tag.
    pub name: String,
}

/// Returns whether the configured model is exactly one of the listed models.
pub fn model_is_listed(models: &[ModelInfo], model: &str) -> (r: bool)
    ensures
        r == exists|i: int| 0 <= i < models@.len() && (#[trigger] models@[i]).name@ == model@,
{
    let wanted = model.to_owned();
    let mut k: usize = 0;
    while k < models.len()
        invariant
            k <= models@.len(),
            wanted@ == model@,
            forall|i: int| 0 <= i < k ==> (#[trigger] models@[i]).name@ != model@,
        decreases models.len() - k,
    {
        if models[k].name == wanted {
            return true;
        }
        k += 1;
    }
    false
}

/// The host of a parsed URL, by kind.
#[derive(Debug, Clone, PartialEq, Eq)]
pub enum EndpointHost {
    /// A domain name, lowercased by the parser.
    Domain(String),
    /// An IPv4 address, as its 32-bit value.
    Ipv4(u32),
    /// An IPv6 address, as its 128-bit value.
    Ipv6(u128),
}

/// A host as a mathematical value.
pub enum HostView {
    Domain(Seq<char>),
    Ipv4(u32),
    Ipv6(u128),
}

impl View for EndpointHost {
    type V = HostView;

    open spec fn view(&self) -> HostView {
        match self {
            EndpointHost::Domain(d) => HostView::Domain(d@),
            EndpointHost::Ipv4(a) => HostView::Ipv4(*a),
            EndpointHost::Ipv6(a) => HostView::Ipv6(*a),
        }
    }
}

/// The parts of a parsed URL that the client checks.
#[derive(Debug, Clone, PartialEq, Eq)]
pub struct EndpointParts {
    /// The scheme, lowercased by the parser.
    pub scheme: String,
    /// The user name, empty when the URL has none.
    pub username: String,
    /// The password, when the URL has one.
    pub password: Option<String>,
    /// The host, when the URL has one.
    pub host: Option<EndpointHost>,
    /// The path.
    pub path: String,
}

/// The parts of a parsed URL as mathematical values.
pub struct EndpointView {
    pub scheme: Seq<char>,
    pub username: Seq<char>,
    pub password: Option<Seq<char>>,
    pub host: Option<HostView>,
    pub path: Seq<char>,
}

impl View for EndpointParts {
    type V = EndpointView;

    open spec fn view(&self) -> EndpointView {
        EndpointView {
            scheme: self.scheme@,
            username: self.username@,
            password: match self.password {
                Some(p) => Some(p@),
                None => None,
            },
            host: match self.host {
                Some(h) => Some(h@),
                None => None,
            },
            path: self.path@,
        }
    }
}

/// The outcome of parsing a URL as mathematical values.
pub open spec fn parts_view(r: Result<EndpointParts, String>) -> Result<EndpointView, Seq<char>> {
    match r {
        Ok(p) => Ok(p@),
        Err(e) => Err(e@),
    }
}

/// What `url::Url::parse` makes of a text: its scheme, credentials, host and path, or
/// the text of its error.
pub uninterp spec fn url_parse(input: Seq<char>) -> Result<EndpointView, Seq<char>>;

/// Parses `input` with `url::Url::parse` and reads its scheme, user name, password,
/// host and path, or the display text of the parse error. Trusted: the result is the
/// named parse of `input`; nothing is claimed of how the URL grammar is applied.
#[verifier::external_body]
fn parse_url(input: &str) -> (r: Result<EndpointParts, String>)
    ensures
        parts_view(r) == url_parse(input@),
{
    let u = match url::Url::parse(input) {
        Ok(u) => u,
        Err(e) => return Err(e.to_string()),
    };
    let host = match u.host() {
        Some(url::Host::Domain(d)) => Some(EndpointHost::Domain(d.to_owned())),
        Some(url::Host::Ipv4(a)) => Some(EndpointHost::Ipv4(a.into())),
        Some(url::Host::Ipv6(a)) => Some(EndpointHost::Ipv6(a.into())),
        None => None,
    };
    let (scheme, username, path) = (u.scheme().into(), u.username().into(), u.path().into());
    Ok(EndpointParts { scheme, username, password: u.password().map(str::to_owned), host, path })
}

/// A loopback host: `localhost`, an IPv4 address in `127.0.0.0/8`, or the IPv6
/// address `::1`.
pub open spec fn is_loopback(h: HostView) -> bool {
    match h {
        HostView::Domain(d) => d == "localhost"@,
        HostView::Ipv4(a) => 0x7F00_0000 <= a <= 0x7FFF_FFFF,
        HostView::Ipv6(a) => a == 1,
    }
}

fn loopback(h: &EndpointHost) -> (r: bool)
    ensures
        r == is_loopback(h@),
{
    match h {
        EndpointHost::Domain(d) => crate::text::same_text(d.as_str(), "localhost"),
        EndpointHost::Ipv4(a) => 0x7F00_0000 <= *a && *a <= 0x7FFF_FFFF,
        EndpointHost::Ipv6(a) => *a == 1,
    }
}

/// The checked endpoint and model of a client.
#[derive(Debug, Clone, PartialEq, Eq)]
pub struct ClientSettings {
    /// The endpoint's path, ending with `/` so that API paths are joined below it.
    pub base_path: String,
    /// The model, trimmed.
    pub model: String,
}

/// What a client configuration yields: the endpoint must have parsed, use `http` or
/// `https`, include a host, carry no credentials and name a loopback host; its path
/// gets a trailing `/`; the trimmed model must not be empty. Otherwise the
/// configuration error's message.
pub open spec fn client_settings(parsed: Result<EndpointView, Seq<char>>, model: Seq<char>) -> Result<
    (Seq<char>, Seq<char>),
    Seq<char>,
> {
    match parsed {
        Err(e) => Err(e),
        Ok(p) => if p.scheme != "http"@ && p.scheme != "https"@ {
            Err("endpoint must use http or https"@)
        } else if p.host is None {
            Err("endpoint must include a host"@)
        } else if p.username.len() > 0 || p.password is Some {
            Err("endpoint must not include credentials"@)
        } else if !is_loopback(p.host->Some_0) {
            Err("endpoint must be a loopback address"@)
        } else if trim(model).len() == 0 {
            Err("model must not be empty"@)
        } else {
            Ok(
                (
                    if p.path.len() > 0 && p.path.last() == '/' {
                        p.path
                    } else {
                        p.path.push('/')
                    },
                    trim(model),
                ),
            )
        },
    }
}

/// The settings view.
pub open spec fn settings_view(r: Result<ClientSettings, String>) -> Result<
    (Seq<char>, Seq<char>),
    Seq<char>,
> {
    match r {
        Ok(s) => Ok((s.base_path@, s.model@)),
        Err(e) => Err(e@),
    }
}

/// Checks an already parsed endpoint together with the model.
pub fn check_endpoint(parsed: Result<EndpointParts, String>, model: &str) -> (r: Result<
    ClientSettings,
    String,
>)
    ensures
        settings_view(r) == client_settings(parts_view(parsed), model@),
{
    let parts = match parsed {
        Ok(p) => p,
        Err(e) => return Err(e),
    };
    if !crate::text::same_text(parts.scheme.as_str(), "http") && !crate::text::same_text(
        parts.scheme.as_str(),
        "https",
    ) {
        return Err("endpoint must use http or https".to_owned());
    }
    let host = match &parts.host {
        Some(h) => h,
        None => return Err("endpoint must include a host".to_owned()),
    };
    if !parts.username.as_str().is_empty() || parts.password.is_some() {
        return Err("endpoint must not include credentials".to_owned());
    }
    if !loopback(host) {
        return Err("endpoint must be a loopback address".to_owned());
    }
    let model = trimmed(model);
    if model.as_str().is_empty() {
        return Err("model must not be empty".to_owned());
    }
    let path = chars_of(parts.path.as_str());
    let n = path.len();
    assert(n > 0 ==> path@[n - 1] == parts.path@.last());
    let base_path = if n > 0 && path[n - 1] == '/' {
        parts.path
    } else {
        let mut p = parts.path;
        let ghost before = p@;
        p.append("/");
        proof {
            reveal_strlit("/");
            assert(p@ =~= before.push('/'));
        }
        p
    };
    Ok(ClientSettings { base_path, model })
}

impl ClientSettings {
    /// Creates client settings with strict endpoint and model validation; fails with
    /// the message of the configuration error.
    pub fn new(base_url: &str, model: &str) -> (r: Result<ClientSettings, String>)
        ensures
            settings_view(r) == client_settings(url_parse(base_url@), model@),
    {
        check_endpoint(parse_url(base_url), model)
    }

    /// The path of the model list, `api/tags` below the base path.
    pub fn tags_path(&self) -> (r: String)
        ensures
            r@ == self.base_path@ + "api/tags"@,
    {
        let mut p = self.base_path.clone();
        p.append("api/tags");
        p
    }

    /// The path of the streamed chat, `api/chat` below the base path.
    pub fn chat_path(&self) -> (r: String)
        ensures
            r@ == self.base_path@ + "api/chat"@,
    {
        let mut p = self.base_path.clone();
        p.append("api/chat");
        p
    }
}

/// An HTTP status in the success class (`200..=299`).
pub open spec fn is_success_status(status: u16) -> bool {
    200 <= status <= 299
}

/// Returns whether an HTTP status is a success.
pub fn status_is_success(status: u16) -> (r: bool)
    ensures
        r == is_success_status(status),
{
    200 <= status && status <= 299
}

/// At most the first 1024 characters of an error body.
pub fn error_body(body: &str) -> (r: String)
    ensures
        r@ == if body@.len() <= 1024 {
            body@
        } else {
            body@.take(1024)
        },
{
    let v = chars_of(body);
    let end = if v.len() <= 1024 {
        v.len()
    } else {
        1024
    };
    let r = string_from(v.as_slice(), 0, end);
    assert(v@.subrange(0, v@.len() as int) =~= v@);
    r
}

/// A chat request must carry at least one message.
pub fn check_chat_context(messages: &[Message]) -> (r: Result<(), String>)
    ensures
        messages@.len() == 0 ==> (r matches Err(m) && m@ == "chat context must not be empty"@),
        messages@.len() > 0 ==> r is Ok,
{
    if messages.len() == 0 {
        return Err("chat context must not be empty".to_owned());
    }
    Ok(())
}

/// One decoded frame of the streamed chat reply.
#[derive(Debug, Clone, PartialEq, Eq)]
pub struct ChatFrame {
    /// The next piece of the assistant's message.
    pub message: Option<Message>,
    /// The reply is complete.
    pub done: bool,
    /// A failure reported by the server.
    pub error: Option<String>,
}

/// What a frame contributes: the server's error text; nothing once done; otherwise the
/// message content when it is not empty.
pub open spec fn frame_delta_spec(
    message: Option<MessageView>,
    done: bool,
    error: Option<Seq<char>>,
) -> Result<Option<Seq<char>>, Seq<char>> {
    match error {
        Some(e) => Err(e),
        None => if done {
            Ok(None)
        } else {
            match message {
                Some(m) => if m.content.len() > 0 {
                    Ok(Some(m.content))
                } else {
                    Ok(None)
                },
                None => Ok(None),
            }
        },
    }
}

/// The view of a frame's fields.
pub open spec fn frame_view(f: ChatFrame) -> (Option<MessageView>, bool, Option<Seq<char>>) {
    (
        match f.message {
            Some(m) => Some(m@),
            None => None,
        },
        f.done,
        match f.error {
            Some(e) => Some(e@),
            None => None,
        },
    )
}

/// Turns a decoded frame into the next text delta (`Ok(None)` when there is none), or
/// the server's error text.
pub fn frame_delta(frame: ChatFrame) -> (r: Result<Option<String>, String>)
    ensures
        frame.error is None && !frame.done && frame.message is Some
            && frame.message->Some_0.content@.len() > 0 ==> (r matches Ok(Some(x)) && x@
            == frame.message->Some_0.content@),
        frame.error is None && !frame.done && frame.message is Some
            && frame.message->Some_0.content@.len() == 0 ==> r matches Ok(None),
        ({
            let (m, d, e) = frame_view(frame);
            match frame_delta_spec(m, d, e) {
                Ok(Some(t)) => r matches Ok(Some(x)) && x@ == t,
                Ok(None) => r matches Ok(None),
                Err(t) => r matches Err(x) && x@ == t,
            }
        }),
{
    if let Some(error) = frame.error {
        return Err(error);
    }
    if frame.done {
        return Ok(None);
    }
    match frame.message {
        Some(message) => if message.content.as_str().is_empty() {
            Ok(None)
        } else {
            Ok(Some(message.content))
        },
        None => Ok(None),
    }
}

/// What a frame yields, in terms of its fields: the server's error whenever there is
/// one; nothing once the reply is done; otherwise the message content exactly as sent,
/// whitespace-only pieces such as `"\n\n"` included, and nothing only for an absent
/// message or an empty content.
pub proof fn lemma_frame_delta_forwards_content(
    message: Option<MessageView>,
    done: bool,
    error: Option<Seq<char>>,
)
    ensures
        error matches Some(e) ==> frame_delta_spec(message, done, error) == Err::<
            Option<Seq<char>>,
            Seq<char>,
        >(e),
        error is None && done ==> frame_delta_spec(message, done, error) == Ok::<
            Option<Seq<char>>,
            Seq<char>,
        >(None),
        error is None && !done && message is Some && message->Some_0.content.len() > 0
            ==> frame_delta_spec(message, done, error) == Ok::<Option<Seq<char>>, Seq<char>>(
            Some(message->Some_0.content),
        ),
        error is None && !done && (message is None || message->Some_0.content.len() == 0)
            ==> frame_delta_spec(message, done, error) == Ok::<Option<Seq<char>>, Seq<char>>(
            None,
        ),
        frame_delta_spec(message, done, error) matches Ok(Some(t)) ==> t.len() > 0,
{
}

/// An ASCII whitespace byte (`u8::is_ascii_whitespace`: space, tab, line feed, form
/// feed, carriage return).
pub open spec fn is_ascii_ws(b: u8) -> bool {
    b == 32 || b == 9 || b == 10 || b == 12 || b == 13
}

/// The bytes of a line handed to the JSON decoder: a final `\n` is dropped, then a
/// final `\r`.
pub open spec fn frame_bytes(line: Seq<u8>) -> Seq<u8> {
    let a = if line.len() > 0 && line.last() == 10 {
        line.drop_last()
    } else {
        line
    };
    if a.len() > 0 && a.last() == 13 {
        a.drop_last()
    } else {
        a
    }
}

/// The bytes to decode as a frame, or `None` when the line is blank.
pub open spec fn frame_payload_spec(line: Seq<u8>) -> Option<Seq<u8>> {
    let b = frame_bytes(line);
    if forall|i: int| 0 <= i < b.len() ==> is_ascii_ws(#[trigger] b[i]) {
        None
    } else {
        Some(b)
    }
}

fn ascii_ws(b: u8) -> (r: bool)
    ensures
        r == is_ascii_ws(b),
{
    b == 32 || b == 9 || b == 10 || b == 12 || b == 13
}

/// Copies `v[lo..hi]`.
fn copy_bytes(v: &[u8], lo: usize, hi: usize) -> (r: Vec<u8>)
    requires
        lo <= hi <= v@.len(),
    ensures
        r@ == v@.subrange(lo as int, hi as int),
{
    let mut r: Vec<u8> = Vec::new();
    let mut k = lo;
    while k < hi
        invariant
            lo <= k <= hi <= v@.len(),
            r@ == v@.subrange(lo as int, k as int),
        decreases hi - k,
    {
        r.push(v[k]);
        assert(r@ =~= v@.subrange(lo as int, k + 1));
        k += 1;
    }
    r
}

/// Prepares one line of the stream for decoding: `None` for a blank line, else the
/// bytes to decode.
pub fn frame_payload(line: &[u8]) -> (r: Option<Vec<u8>>)
    ensures
        match frame_payload_spec(line@) {
            Some(b) => r matches Some(v) && v@ == b,
            None => r is None,
        },
{
    let n = line.len();
    let a_len = if n > 0 && line[n - 1] == 10 {
        n - 1
    } else {
        n
    };
    let end = if a_len > 0 && line[a_len - 1] == 13 {
        a_len - 1
    } else {
        a_len
    };
    let bytes = copy_bytes(line, 0, end);
    proof {
        let a = if line@.len() > 0 && line@.last() == 10 {
            line@.drop_last()
        } else {
            line@
        };
        assert(a =~= line@.subrange(0, a_len as int));
        if a.len() > 0 && a.last() == 13 {
            assert(a.drop_last() =~= bytes@);
        } else {
            assert(a =~= bytes@);
        }
    }
    let mut k: usize = 0;
    while k < bytes.len()
        invariant
            k <= bytes@.len(),
            bytes@ == frame_bytes(line@),
            forall|i: int| 0 <= i < k ==> is_ascii_ws(#[trigger] bytes@[i]),
        decreases bytes.len() - k,
    {
        if !ascii_ws(bytes[k]) {
            assert(!is_ascii_ws(frame_bytes(line@)[k as int]));
            return Some(bytes);
        }
        k += 1;
    }
    None
}

/// A line feed byte.
pub open spec fn is_lf(b: u8) -> bool {
    b == 10
}

/// The complete lines of `s`, each with its terminating line feed.
pub open spec fn complete_lines(s: Seq<u8>) -> Seq<Seq<u8>> {
    split_by(s, |b: u8| is_lf(b)).drop_last().map_values(|l: Seq<u8>| l.push(10u8))
}

/// What follows the last line feed of `s` (all of `s` when it holds none).
pub open spec fn remainder(s: Seq<u8>) -> Seq<u8> {
    split_by(s, |b: u8| is_lf(b)).last()
}

/// Chunk boundaries do not matter: feeding `a` and then `b` after `p` hands out the
/// same lines, and keeps the same pending bytes, as feeding `a + b` at once.
pub proof fn lemma_chunking_irrelevant(p: Seq<u8>, a: Seq<u8>, b: Seq<u8>)
    ensures
        complete_lines(p + a) + complete_lines(remainder(p + a) + b) == complete_lines(
            p + (a + b),
        ),
        remainder(remainder(p + a) + b) == remainder(p + (a + b)),
{
    let lf = |c: u8| is_lf(c);
    let x = p + a;
    assert(p + (a + b) =~= x + b);
    crate::text::lemma_split_by_len(x, lf);
    crate::text::lemma_split_by_len(b, lf);
    let sx = split_by(x, lf);
    crate::text::lemma_split_by_pieces(x, lf);
    let z = sx.last();
    assert forall|j: int| 0 <= j < z.len() implies !lf(#[trigger] z[j]) by {
        assert(!lf(sx[sx.len() - 1][j]));
    }
    crate::text::lemma_split_by_single(z, lf);
    crate::text::lemma_split_by_concat(x, b, lf);
    crate::text::lemma_split_by_concat(z, b, lf);
    let sb = split_by(b, lf);
    let t = split_by(z + b, lf);
    let u = split_by(x + b, lf);
    assert(seq![z].drop_last() =~= Seq::<Seq<u8>>::empty());
    assert(t =~= seq![z + sb[0]] + sb.skip(1));
    assert(u =~= sx.drop_last() + t);
    assert(u.drop_last() =~= sx.drop_last() + t.drop_last());
    let f = |l: Seq<u8>| l.push(10u8);
    assert(u.drop_last().map_values(f) =~= sx.drop_last().map_values(f) + t.drop_last().map_values(
        f,
    ));
}

/// What follows the last line feed holds no line feed, so the pending bytes of every
/// buffer meet the condition of `lemma_any_chunking`.
pub proof fn lemma_remainder_has_no_line_feed(s: Seq<u8>)
    ensures
        forall|j: int| 0 <= j < remainder(s).len() ==> !is_lf(#[trigger] remainder(s)[j]),
{
    let lf = |b: u8| is_lf(b);
    crate::text::lemma_split_by_len(s, lf);
    crate::text::lemma_split_by_pieces(s, lf);
    let sp = split_by(s, lf);
    assert forall|j: int| 0 <= j < remainder(s).len() implies !is_lf(#[trigger] remainder(s)[j]) by {
        assert(!lf(sp[sp.len() - 1][j]));
    }
}

/// The chunks of a stream joined in order.
pub open spec fn joined(chunks: Seq<Seq<u8>>) -> Seq<u8>
    decreases chunks.len(),
{
    if chunks.len() == 0 {
        Seq::empty()
    } else {
        joined(chunks.drop_last()) + chunks.last()
    }
}

/// The bytes left pending after feeding `chunks`, one `push` each, to a buffer holding `p`.
pub open spec fn fed_pending(p: Seq<u8>, chunks: Seq<Seq<u8>>) -> Seq<u8>
    decreases chunks.len(),
{
    if chunks.len() == 0 {
        p
    } else {
        remainder(fed_pending(p, chunks.drop_last()) + chunks.last())
    }
}

/// The lines handed out, in order, while feeding `chunks`, one `push` each, to a buffer
/// holding `p`.
pub open spec fn fed_lines(p: Seq<u8>, chunks: Seq<Seq<u8>>) -> Seq<Seq<u8>>
    decreases chunks.len(),
{
    if chunks.len() == 0 {
        Seq::empty()
    } else {
        fed_lines(p, chunks.drop_last()) + complete_lines(
            fed_pending(p, chunks.drop_last()) + chunks.last(),
        )
    }
}

/// However a stream is cut into chunks, a buffer whose pending bytes hold no line feed
/// (a new buffer among them) hands out the complete lines of the whole stream, in order,
/// and keeps what follows its last line feed.
pub proof fn lemma_any_chunking(p: Seq<u8>, chunks: Seq<Seq<u8>>)
    requires
        forall|j: int| 0 <= j < p.len() ==> !is_lf(#[trigger] p[j]),
    ensures
        fed_lines(p, chunks) == complete_lines(p + joined(chunks)),
        fed_pending(p, chunks) == remainder(p + joined(chunks)),
    decreases chunks.len(),
{
    if chunks.len() == 0 {
        let lf = |b: u8| is_lf(b);
        assert(p + joined(chunks) =~= p);
        crate::text::lemma_split_by_single(p, lf);
        assert(complete_lines(p) =~= Seq::<Seq<u8>>::empty());
    } else {
        let rest = chunks.drop_last();
        lemma_any_chunking(p, rest);
        lemma_chunking_irrelevant(p, joined(rest), chunks.last());
    }
}

/// Buffers a byte stream and hands out complete NDJSON lines, whatever the chunk
/// boundaries.
#[derive(Debug)]
pub struct LineBuffer {
    pending: Vec<u8>,
}

impl LineBuffer {
    /// The bytes received after the last complete line.
    pub closed spec fn pending(&self) -> Seq<u8> {
        self.pending@
    }

    /// An empty buffer.
    pub fn new() -> (r: Self)
        ensures
            r.pending() == Seq::<u8>::empty(),
    {
        LineBuffer { pending: Vec::new() }
    }

    /// Appends a chunk and returns the lines it completes, each with its line feed.
    pub fn push(&mut self, chunk: &[u8]) -> (r: Vec<Vec<u8>>)
        ensures
            r@.map_values(|l: Vec<u8>| l@) == complete_lines(old(self).pending() + chunk@),
            final(self).pending() == remainder(old(self).pending() + chunk@),
    {
        let ghost all = self.pending@ + chunk@;
        let ghost lf = |b: u8| is_lf(b);
        let mut k: usize = 0;
        while k < chunk.len()
            invariant
                k <= chunk@.len(),
                self.pending@ == old(self).pending@ + chunk@.take(k as int),
            decreases chunk.len() - k,
        {
            self.pending.push(chunk[k]);
            assert(self.pending@ =~= old(self).pending@ + chunk@.take(k + 1));
            k += 1;
        }
        assert(chunk@.take(chunk@.len() as int) =~= chunk@);
        let buf = &self.pending;
        let n = buf.len();
        let mut out: Vec<Vec<u8>> = Vec::new();
        let mut start: usize = 0;
        let mut i: usize = 0;
        let ghost mut done: Seq<Seq<u8>> = Seq::empty();
        assert(buf@.take(0) =~= Seq::<u8>::empty());
        assert(split_by(buf@.take(0), lf) =~= done.push(buf@.subrange(0, 0)));
        while i < n
            invariant
                start <= i <= n == buf@.len(),
                buf@ == all,
                lf == (|b: u8| is_lf(b)),
                split_by(buf@.take(i as int), lf) == done.push(buf@.subrange(start as int, i as int)),
                out@.map_values(|l: Vec<u8>| l@) == done.map_values(|l: Seq<u8>| l.push(10u8)),
            decreases n - i,
        {
            proof {
                assert(buf@.take(i + 1).drop_last() =~= buf@.take(i as int));
                crate::text::lemma_split_by_len(buf@.take(i as int), lf);
            }
            if buf[i] == 10 {
                let line = copy_bytes(buf.as_slice(), start, i + 1);
                proof {
                    let whole = buf@.subrange(start as int, i as int);
                    assert(line@ =~= whole.push(10u8));
                    let ghost before = out@;
                    assert(done.push(whole).map_values(|l: Seq<u8>| l.push(10u8))
                        =~= done.map_values(|l: Seq<u8>| l.push(10u8)).push(whole.push(10u8)));
                    done = done.push(whole);
                    assert(buf@.subrange(i + 1, i + 1) =~= Seq::<u8>::empty());
                    assert(split_by(buf@.take(i + 1), lf) =~= done.push(
                        buf@.subrange(i + 1, i + 1),
                    ));
                }
                let ghost before = out@;
                out.push(line);
                assert(out@.map_values(|l: Vec<u8>| l@) =~= before.map_values(|l: Vec<u8>| l@).push(line@));
                start = i + 1;
            } else {
                proof {
                    assert(buf@.subrange(start as int, i as int).push(buf@[i as int]) =~= buf@.subrange(
                        start as int,
                        i + 1,
                    ));
                    assert(split_by(buf@.take(i + 1), lf) =~= done.push(
                        buf@.subrange(start as int, i + 1),
                    ));
                }
            }
            i += 1;
        }
        assert(buf@.take(n as int) =~= buf@);
        let rest = copy_bytes(buf.as_slice(), start, n);
        self.pending = rest;
        proof {
            assert(split_by(all, lf).drop_last() =~= done);
        }
        out
    }

    /// Ends the stream: the bytes after the last line feed, when any of them is not
    /// ASCII whitespace.
    pub fn finish(self) -> (r: Option<Vec<u8>>)
        ensures
            (exists|i: int| 0 <= i < self.pending().len() && !is_ascii_ws(#[trigger] self.pending()[i]))
                ==> (r matches Some(v) && v@ == self.pending()),
            (forall|i: int| 0 <= i < self.pending().len() ==> is_ascii_ws(#[trigger] self.pending()[i]))
                ==> r is None,
    {
        let mut k: usize = 0;
        while k < self.pending.len()
            invariant
                k <= self.pending@.len(),
                forall|i: int| 0 <= i < k ==> is_ascii_ws(#[trigger] self.pending@[i]),
            decreases self.pending.len() - k,
        {
            if !ascii_ws(self.pending[k]) {
                assert(!is_ascii_ws(self.pending()[k as int]));
                return Some(self.pending);
            }
            k += 1;
        }
        None
    }
}

} // verus!
