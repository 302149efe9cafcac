//! The HTTP upgrade handshake: finding the client's key and answering with the accept key.
use vstd::prelude::*;
use vstd::string::*;

verus! {

/// The GUID that RFC 6455 appends to a client's key before hashing.
pub const WS_GUID: &'static str = "258EAFA5-E914-47DA-95CA-C5AB0DC85B11";

/// The request header that carries the client's key, with its separator.
pub const KEY_HEADER: &'static str = "Sec-WebSocket-Key: ";

/// The start of the 101 response, up to the accept key.
pub const RESPONSE_HEAD: &'static str =
    "HTTP/1.1 101 Switching Protocols\r\nUpgrade: websocket\r\nConnection: Upgrade\r\nSec-WebSocket-Accept: ";

/// What follows the accept key in the 101 response: the end of its line and a blank line.
pub const RESPONSE_TAIL: &'static str = "\r\n\r\n";

/// Why an upgrade request was refused.
#[derive(Clone, Copy, Debug, PartialEq, Eq, Structural)]
pub enum HandshakeError {
    /// The request has no `Sec-WebSocket-Key` header.
    MissingKey,
    /// The header's value is not the 24 characters of a base64-encoded 16-byte nonce.
    MalformedKey,
}

/// The SHA-1 digest of a byte sequence.
pub uninterp spec fn sha1_of(data: Seq<u8>) -> Seq<u8>;

/// The standard, padded base64 encoding of a byte sequence.
pub uninterp spec fn base64_of(data: Seq<u8>) -> Seq<char>;

/// Relies on sha1 (`Sha1::from(..).digest().bytes()`): the 20-byte SHA-1 digest of `data`.
/// The hasher counts the message length in bits in a `u64`, hence the bound.
#[verifier::external_body]
fn sha1_digest(data: &[u8]) -> (r: Vec<u8>)
    requires
        data@.len() < 0x2000_0000_0000_0000,
    ensures
        r@ == sha1_of(data@),
        r@.len() == 20,
{
    sha1::Sha1::from(data).digest().bytes().to_vec()
}

/// Relies on base64::encode: the standard alphabet with padding, four characters for each
/// started group of three bytes. Its size computation overflows only near `usize::MAX`.
#[verifier::external_body]
fn base64_encode(data: &[u8]) -> (r: String)
    requires
        data@.len() <= usize::MAX / 2,
    ensures
        r@ == base64_of(data@),
        r@.len() == 4 * ((data@.len() + 2) / 3),
{
    base64::encode(data)
}

/// The accept key for a client key given as bytes.
pub open spec fn accept_key_spec(key: Seq<u8>) -> Seq<char> {
    base64_of(sha1_of(key + WS_GUID.spec_bytes()))
}

/// The full 101 response for an accept key.
pub open spec fn response_spec(accept_key: Seq<char>) -> Seq<char> {
    RESPONSE_HEAD@ + accept_key + RESPONSE_TAIL@
}

/// The accept key for `key`: base64 of the SHA-1 digest of the key followed by the GUID.
pub fn accept_key_for(key: &[u8]) -> (r: String)
    requires
        key@.len() < 0x1000_0000_0000_0000,
    ensures
        r@ == accept_key_spec(key@),
{
    let guid: &[u8] = WS_GUID.as_bytes();
    let mut data: Vec<u8> = Vec::with_capacity(key.len());
    let mut i: usize = 0;
    while i < key.len()
        invariant
            i <= key@.len(),
            data@ == key@.subrange(0, i as int),
        decreases key@.len() - i,
    {
        data.push(key[i]);
        i = i + 1;
        assert(data@ =~= key@.subrange(0, i as int));
    }
    proof {
        reveal_strlit("258EAFA5-E914-47DA-95CA-C5AB0DC85B11");
        assert(WS_GUID@.len() == 36);
        assert(is_ascii(WS_GUID));
        is_ascii_spec_bytes(WS_GUID);
    }
    let mut j: usize = 0;
    while j < guid.len()
        invariant
            j <= guid@.len(),
            guid@ == WS_GUID.spec_bytes(),
            data@ == key@ + guid@.subrange(0, j as int),
        decreases guid@.len() - j,
    {
        data.push(guid[j]);
        j = j + 1;
        assert(data@ =~= key@ + guid@.subrange(0, j as int));
    }
    assert(guid@.subrange(0, guid@.len() as int) =~= guid@);
    let digest: Vec<u8> = sha1_digest(data.as_slice());
    base64_encode(digest.as_slice())
}

/// The `Sec-WebSocket-Accept` value for a client's `Sec-WebSocket-Key`.
pub fn compute_accept_key(client_key: &str) -> (r: String)
    requires
        client_key.spec_bytes().len() < 0x1000_0000_0000_0000,
    ensures
        r@ == accept_key_spec(client_key.spec_bytes()),
{
    accept_key_for(client_key.as_bytes())
}

/// The 101 Switching Protocols response that completes the upgrade with `accept_key`.
pub fn build_handshake_response(accept_key: &str) -> (r: String)
    ensures
        r@ == response_spec(accept_key@),
{
    let mut r = String::from_str(RESPONSE_HEAD);
    r.append(accept_key);
    r.append(RESPONSE_TAIL);
    r
}

/// `pat` occurs in `req` at position `p`.
pub open spec fn bytes_at(req: Seq<u8>, p: int, pat: Seq<u8>) -> bool {
    0 <= p && p + pat.len() <= req.len() && req.subrange(p, p + pat.len()) == pat
}

/// The first position at or after `from` where the key header starts.
pub open spec fn find_key_header(req: Seq<u8>, from: int) -> Option<int>
    decreases req.len() - from,
{
    if from < 0 || from >= req.len() {
        None
    } else if bytes_at(req, from, KEY_HEADER.spec_bytes()) {
        Some(from)
    } else {
        find_key_header(req, from + 1)
    }
}

/// The position of the first CR or LF at or after `i`, or the end of `req`.
pub open spec fn line_end(req: Seq<u8>, i: int) -> int
    decreases req.len() - i,
{
    if i < 0 || i >= req.len() {
        req.len() as int
    } else if req[i] == 13 || req[i] == 10 {
        i
    } else {
        line_end(req, i + 1)
    }
}

/// The client's key in an upgrade request: the rest of the line after the first key header.
pub open spec fn client_key_spec(req: Seq<u8>) -> Result<Seq<u8>, HandshakeError> {
    match find_key_header(req, 0) {
        None => Err(HandshakeError::MissingKey),
        Some(p) => {
            let start = p + KEY_HEADER.spec_bytes().len();
            let key = req.subrange(start, line_end(req, start));
            if key.len() == 24 {
                Ok(key)
            } else {
                Err(HandshakeError::MalformedKey)
            }
        },
    }
}

proof fn lemma_header_len()
    ensures
        KEY_HEADER.spec_bytes().len() == 19,
{
    reveal_strlit("Sec-WebSocket-Key: ");
    assert(KEY_HEADER@.len() == 19);
    assert(is_ascii(KEY_HEADER));
    is_ascii_spec_bytes(KEY_HEADER);
}

/// No key header starts where it could not fit.
proof fn lemma_no_header_past(req: Seq<u8>, from: int)
    requires
        from + KEY_HEADER.spec_bytes().len() > req.len(),
    ensures
        find_key_header(req, from) is None,
    decreases req.len() - from,
{
    if from >= 0 && from < req.len() {
        lemma_no_header_past(req, from + 1);
    }
}

/// Whether `pat` occurs in `req` at position `p`.
fn matches_at(req: &[u8], p: usize, pat: &[u8]) -> (r: bool)
    ensures
        r == bytes_at(req@, p as int, pat@),
{
    if p > req.len() || pat.len() > req.len() - p {
        return false;
    }
    let mut k: usize = 0;
    while k < pat.len()
        invariant
            p + pat@.len() <= req@.len(),
            req@.len() == req.len(),
            k <= pat@.len(),
            req@.subrange(p as int, p + k) == pat@.subrange(0, k as int),
        decreases pat@.len() - k,
    {
        if req[p + k] != pat[k] {
            assert(req@.subrange(p as int, p + pat@.len())[k as int] != pat@[k as int]);
            return false;
        }
        k = k + 1;
        assert(req@.subrange(p as int, p + k) =~= pat@.subrange(0, k as int));
    }
    assert(pat@.subrange(0, k as int) =~= pat@);
    true
}

/// Finds the `Sec-WebSocket-Key` value in an upgrade request.
pub fn extract_client_key(request: &[u8]) -> (r: Result<Vec<u8>, HandshakeError>)
    ensures
        client_key_spec(request@) == match r {
            Ok(k) => Ok(k@),
            Err(e) => Err(e),
        },
{
    let name: &[u8] = KEY_HEADER.as_bytes();
    proof {
        lemma_header_len();
    }
    let len: usize = request.len();
    if name.len() > len {
        proof {
            lemma_no_header_past(request@, 0);
        }
        return Err(HandshakeError::MissingKey);
    }
    let last: usize = len - name.len();
    let mut p: usize = 0;
    let mut found: bool = false;
    while p <= last && !found
        invariant
            last + name@.len() == len == request@.len(),
            name@ == KEY_HEADER.spec_bytes(),
            name@.len() == 19,
            found ==> p <= last && bytes_at(request@, p as int, name@),
            find_key_header(request@, 0) == find_key_header(request@, p as int),
        decreases last + 1 - p + (if found {
            0int
        } else {
            1int
        }),
    {
        if matches_at(request, p, name) {
            found = true;
        } else {
            p = p + 1;
        }
    }
    if !found {
        proof {
            lemma_no_header_past(request@, p as int);
        }
        return Err(HandshakeError::MissingKey);
    }
    let start: usize = p + name.len();
    let mut e: usize = start;
    while e < len && request[e] != 13 && request[e] != 10
        invariant
            start <= e <= len == request@.len(),
            line_end(request@, start as int) == line_end(request@, e as int),
        decreases len - e,
    {
        e = e + 1;
    }
    if e - start != 24 {
        return Err(HandshakeError::MalformedKey);
    }
    let mut key: Vec<u8> = Vec::with_capacity(24);
    let mut i: usize = start;
    while i < e
        invariant
            start <= i <= e <= len == request@.len(),
            key@ == request@.subrange(start as int, i as int),
        decreases e - i,
    {
        key.push(request[i]);
        i = i + 1;
        assert(key@ =~= request@.subrange(start as int, i as int));
    }
    Ok(key)
}

/// Answers an upgrade request: the 101 response carrying the accept key for the request's
/// `Sec-WebSocket-Key`, or why the request has to be refused.
pub fn ws_handshake_respond(request: &[u8]) -> (r: Result<String, HandshakeError>)
    ensures
        match client_key_spec(request@) {
            Ok(k) => r is Ok && r->Ok_0@ == response_spec(accept_key_spec(k)),
            Err(e) => r == Err::<String, HandshakeError>(e),
        },
{
    match extract_client_key(request) {
        Ok(key) => {
            let accept: String = accept_key_for(key.as_slice());
            Ok(build_handshake_response(accept.as_str()))
        },
        Err(e) => Err(e),
    }
}

/// What an incoming HTTP request asks for.
#[derive(Clone, Copy, Debug, PartialEq, Eq, Structural)]
pub enum RequestKind {
    /// Not a `GET` of a path.
    NotGet,
    /// `GET /`: the landing page.
    Page,
    /// `GET /ws...`: a WebSocket upgrade.
    Upgrade,
    /// Any other `GET`.
    Unrouted,
}

/// The start of every `GET` request line.
pub const GET_PREFIX: &'static str = "GET /";

/// The start of a request line for the landing page.
pub const PAGE_PREFIX: &'static str = "GET / HTTP";

/// The start of a request line for the WebSocket endpoint.
pub const UPGRADE_PREFIX: &'static str = "GET /ws";

/// How a request is routed, by the start of its request line.
pub open spec fn classify_spec(req: Seq<u8>) -> RequestKind {
    if !bytes_at(req, 0, GET_PREFIX.spec_bytes()) {
        RequestKind::NotGet
    } else if bytes_at(req, 0, PAGE_PREFIX.spec_bytes()) {
        RequestKind::Page
    } else if bytes_at(req, 0, UPGRADE_PREFIX.spec_bytes()) {
        RequestKind::Upgrade
    } else {
        RequestKind::Unrouted
    }
}

/// Routes a request by the start of its request line.
pub fn classify_request(request: &[u8]) -> (r: RequestKind)
    ensures
        r == classify_spec(request@),
{
    if !matches_at(request, 0, GET_PREFIX.as_bytes()) {
        RequestKind::NotGet
    } else if matches_at(request, 0, PAGE_PREFIX.as_bytes()) {
        RequestKind::Page
    } else if matches_at(request, 0, UPGRADE_PREFIX.as_bytes()) {
        RequestKind::Upgrade
    } else {
        RequestKind::Unrouted
    }
}

} // verus!
