use vstd::prelude::*;
use vstd::string::StringSliceAdditionalSpecFns;

use base64::Engine;
use sha1::Digest;

verus! {

/// The SHA-1 digest of a byte string.
pub uninterp spec fn sha1_of(b: Seq<u8>) -> Seq<u8>;

/// The standard, padded base64 text of a byte string, as ASCII bytes.
pub uninterp spec fn base64_of(b: Seq<u8>) -> Seq<u8>;

/// Relies on sha1::Sha1::digest (the digest crate's Digest trait): the SHA-1
/// digest of the input, which depends on the input alone, and is 20 bytes long
/// (its output type is a 20-byte array).
#[verifier::external_body]
fn sha1_digest(data: &[u8]) -> (r: Vec<u8>)
    ensures
        r@ == sha1_of(data@),
        r@.len() == 20,
{
    sha1::Sha1::digest(data).to_vec()
}

/// Relies on base64::engine::general_purpose::STANDARD.encode: the padded
/// standard base64 text of the input. It panics only when the output length
/// overflows usize, which the bound on the input rules out.
#[verifier::external_body]
fn base64_encode(data: &[u8]) -> (r: Vec<u8>)
    requires
        data@.len() <= 0x1000_0000,
    ensures
        r@ == base64_of(data@),
{
    base64::engine::general_purpose::STANDARD.encode(data).into_bytes()
}

/// The GUID that RFC 6455 appends to the client key before hashing.
pub const WEBSOCKET_GUID: &'static str = "258EAFA5-E914-47DA-95CA-C5AB0DC85B11";

/// Appends the bytes of `s` to `out`.
pub(crate) fn push_all(out: &mut Vec<u8>, s: &[u8])
    ensures
        final(out)@ == old(out)@ + s@,
{
    let mut i: usize = 0;
    while i < s.len()
        invariant
            0 <= i <= s@.len(),
            out@ == old(out)@ + s@.subrange(0, i as int),
        decreases s@.len() - i,
    {
        out.push(s[i]);
        i = i + 1;
        assert(s@.subrange(0, i as int) =~= s@.subrange(0, i - 1).push(s@[i - 1]));
    }
    assert(s@.subrange(0, s@.len() as int) =~= s@);
}

/// The `Sec-WebSocket-Key` for a handshake: the base64 text of 16 random bytes.
pub fn handshake_key(nonce: &[u8; 16]) -> (r: Vec<u8>)
    ensures
        r@ == base64_of(nonce@),
{
    base64_encode(nonce.as_slice())
}

/// The `Sec-WebSocket-Accept` value a server must answer to `key`.
pub open spec fn accept_spec(key: Seq<u8>) -> Seq<u8> {
    base64_of(sha1_of(key + WEBSOCKET_GUID.spec_bytes()))
}

/// Computes the `Sec-WebSocket-Accept` value for `key`: the base64 text of the
/// SHA-1 digest of the key followed by the protocol GUID.
pub fn accept_key(key: &[u8]) -> (r: Vec<u8>)
    ensures
        r@ == accept_spec(key@),
{
    let mut input: Vec<u8> = Vec::new();
    push_all(&mut input, key);
    push_all(&mut input, WEBSOCKET_GUID.as_bytes());
    assert(input@ =~= key@ + WEBSOCKET_GUID.spec_bytes());
    let digest = sha1_digest(input.as_slice());
    base64_encode(digest.as_slice())
}


/// The HTTP upgrade request, CRLF line endings, ending with a blank line.
pub open spec fn request_spec(host: Seq<u8>, resource: Seq<u8>, key: Seq<u8>) -> Seq<u8> {
    "GET ".spec_bytes() + resource + " HTTP/1.1\r\nHost: ".spec_bytes() + host
        + "\r\nConnection: Upgrade\r\nUpgrade: websocket\r\nSec-WebSocket-Key: ".spec_bytes() + key
        + "\r\nSec-WebSocket-Version: 13\r\n\r\n".spec_bytes()
}

/// Builds the upgrade request for `resource` on `host` with handshake key `key`.
pub fn request_bytes(host: &str, resource: &str, key: &[u8]) -> (r: Vec<u8>)
    ensures
        r@ == request_spec(host.spec_bytes(), resource.spec_bytes(), key@),
{
    let mut out: Vec<u8> = Vec::new();
    push_all(&mut out, "GET ".as_bytes());
    push_all(&mut out, resource.as_bytes());
    push_all(&mut out, " HTTP/1.1\r\nHost: ".as_bytes());
    push_all(&mut out, host.as_bytes());
    push_all(
        &mut out,
        "\r\nConnection: Upgrade\r\nUpgrade: websocket\r\nSec-WebSocket-Key: ".as_bytes(),
    );
    push_all(&mut out, key);
    push_all(&mut out, "\r\nSec-WebSocket-Version: 13\r\n\r\n".as_bytes());
    out
}

/// Why a server's answer to the upgrade request was refused.
#[derive(Clone, Copy, Debug, PartialEq, Eq, Structural)]
pub enum HandshakeError {
    /// The status line is missing or is not `HTTP/1.1 101`.
    BadStatus,
    /// No `Upgrade` header mentions `websocket`.
    MissingUpgrade,
    /// No `Connection` header mentions `upgrade`.
    MissingConnection,
    /// No `Sec-WebSocket-Accept` header carries the expected value.
    AcceptMismatch,
}

pub open spec fn lower(c: u8) -> u8 {
    if 0x41 <= c <= 0x5A {
        (c + 32) as u8
    } else {
        c
    }
}

/// ASCII case-insensitive equality.
pub open spec fn eq_ci(a: Seq<u8>, b: Seq<u8>) -> bool {
    a.len() == b.len() && forall|i: int| 0 <= i < a.len() ==> lower(#[trigger] a[i]) == lower(b[i])
}

/// `needle` occurs in `hay`, ignoring ASCII case.
pub open spec fn contains_ci(hay: Seq<u8>, needle: Seq<u8>) -> bool {
    exists|i: int|
        0 <= i && i + needle.len() <= hay.len() && #[trigger] eq_ci(
            hay.subrange(i, i + needle.len()),
            needle,
        )
}

pub open spec fn is_first_colon(line: Seq<u8>, i: int) -> bool {
    &&& 0 <= i < line.len()
    &&& line[i] == 0x3A
    &&& forall|j: int| 0 <= j < i ==> line[j] != 0x3A
}

/// The value of a header line `Name: value` whose name is `name`, ignoring case;
/// the name ends at the first colon.
pub open spec fn header_value(line: Seq<u8>, name: Seq<u8>) -> Option<Seq<u8>> {
    if exists|i: int| is_first_colon(line, i) {
        let i = choose|i: int| is_first_colon(line, i);
        if eq_ci(line.subrange(0, i), name) {
            Some(line.subrange(i + 1, line.len() as int))
        } else {
            None
        }
    } else {
        None
    }
}

pub open spec fn is_ows(c: u8) -> bool {
    c == 0x20 || c == 0x09
}

pub open spec fn trim_start(s: Seq<u8>) -> Seq<u8>
    decreases s.len(),
{
    if s.len() > 0 && is_ows(s[0]) {
        trim_start(s.drop_first())
    } else {
        s
    }
}

pub open spec fn trim_end(s: Seq<u8>) -> Seq<u8>
    decreases s.len(),
{
    if s.len() > 0 && is_ows(s.last()) {
        trim_end(s.drop_last())
    } else {
        s
    }
}

/// `s` without leading and trailing spaces and tabs.
pub open spec fn trim(s: Seq<u8>) -> Seq<u8> {
    trim_end(trim_start(s))
}

/// The status line announces a switch of protocols.
pub open spec fn status_ok(line: Seq<u8>) -> bool {
    let st = "HTTP/1.1 101".spec_bytes();
    line.len() >= st.len() && line.subrange(0, st.len() as int) == st && (line.len() == st.len()
        || line[st.len() as int] == 0x20)
}

/// Some header line (after the status line) named `name` has a value that
/// contains `needle`, ignoring case.
pub open spec fn has_header_with(lines: Seq<Seq<u8>>, name: Seq<u8>, needle: Seq<u8>) -> bool {
    exists|h: int|
        1 <= h < lines.len() && (#[trigger] header_value(lines[h], name) matches Some(v)
            && contains_ci(v, needle))
}

/// Some header line carries `Sec-WebSocket-Accept` with the value `accept`.
pub open spec fn has_accept(lines: Seq<Seq<u8>>, accept: Seq<u8>) -> bool {
    exists|h: int|
        1 <= h < lines.len() && (#[trigger] header_value(
            lines[h],
            "sec-websocket-accept".spec_bytes(),
        ) matches Some(v) && trim(v) == accept)
}

/// The verdict on a response whose lines (status line first, without line ends,
/// up to the blank line) are `lines`, for the expected accept value `accept`.
pub open spec fn response_verdict(lines: Seq<Seq<u8>>, accept: Seq<u8>) -> Result<
    (),
    HandshakeError,
> {
    if lines.len() == 0 || !status_ok(lines[0]) {
        Err(HandshakeError::BadStatus)
    } else if !has_header_with(lines, "upgrade".spec_bytes(), "websocket".spec_bytes()) {
        Err(HandshakeError::MissingUpgrade)
    } else if !has_header_with(lines, "connection".spec_bytes(), "upgrade".spec_bytes()) {
        Err(HandshakeError::MissingConnection)
    } else if !has_accept(lines, accept) {
        Err(HandshakeError::AcceptMismatch)
    } else {
        Ok(())
    }
}

pub open spec fn lines_view(lines: Seq<Vec<u8>>) -> Seq<Seq<u8>> {
    lines.map_values(|l: Vec<u8>| l@)
}

fn lower_byte(c: u8) -> (r: u8)
    ensures
        r == lower(c),
{
    if 0x41 <= c && c <= 0x5A {
        c + 32
    } else {
        c
    }
}

/// Compares `n` with `h[at..at + n.len()]`, ignoring ASCII case.
fn eq_ci_at(h: &[u8], at: usize, n: &[u8]) -> (r: bool)
    requires
        at + n@.len() <= h@.len(),
    ensures
        r == eq_ci(h@.subrange(at as int, at + n@.len()), n@),
{
    let ghost a = h@.subrange(at as int, at + n@.len());
    let hl = h.len();
    let mut i: usize = 0;
    while i < n.len()
        invariant
            at + n@.len() <= h@.len() == hl,
            a == h@.subrange(at as int, at + n@.len()),
            0 <= i <= n@.len(),
            forall|j: int| 0 <= j < i ==> lower(#[trigger] a[j]) == lower(n@[j]),
        decreases n@.len() - i,
    {
        if lower_byte(h[at + i]) != lower_byte(n[i]) {
            assert(a[i as int] == h@[at + i]);
            return false;
        }
        i = i + 1;
    }
    true
}

fn contains_ci_exec(h: &[u8], n: &[u8]) -> (r: bool)
    ensures
        r == contains_ci(h@, n@),
{
    if n.len() > h.len() {
        return false;
    }
    let last = h.len() - n.len();
    let mut i: usize = 0;
    loop
        invariant
            last + n@.len() == h@.len(),
            i <= last,
            forall|j: int|
                0 <= j < i ==> !#[trigger] eq_ci(h@.subrange(j, j + n@.len()), n@),
        decreases last - i,
    {
        if eq_ci_at(h, i, n) {
            return true;
        }
        if i == last {
            return false;
        }
        i = i + 1;
    }
}

fn find_colon(s: &[u8]) -> (r: Option<usize>)
    ensures
        match r {
            Some(i) => is_first_colon(s@, i as int),
            None => forall|j: int| 0 <= j < s@.len() ==> s@[j] != 0x3A,
        },
{
    let mut i: usize = 0;
    while i < s.len()
        invariant
            0 <= i <= s@.len(),
            forall|j: int| 0 <= j < i ==> s@[j] != 0x3A,
        decreases s@.len() - i,
    {
        if s[i] == 0x3A {
            return Some(i);
        }
        i = i + 1;
    }
    None
}

/// A copy of `s[from..to]`.
fn copy_range(s: &[u8], from: usize, to: usize) -> (r: Vec<u8>)
    requires
        from <= to <= s@.len(),
    ensures
        r@ == s@.subrange(from as int, to as int),
{
    let mut out: Vec<u8> = Vec::new();
    let mut i: usize = from;
    while i < to
        invariant
            from <= i <= to <= s@.len(),
            out@ == s@.subrange(from as int, i as int),
        decreases to - i,
    {
        out.push(s[i]);
        i = i + 1;
        assert(out@ =~= s@.subrange(from as int, i as int));
    }
    out
}

fn header_value_exec(line: &[u8], name: &[u8]) -> (r: Option<Vec<u8>>)
    ensures
        match r {
            Some(v) => header_value(line@, name@) == Some(v@),
            None => header_value(line@, name@) is None,
        },
{
    let len = line.len();
    match find_colon(line) {
        None => {
            assert(!exists|i: int| is_first_colon(line@, i));
            None
        },
        Some(i) => {
            let ghost c = choose|c: int| is_first_colon(line@, c);
            assert(c == i as int) by {
                if c < i {
                    assert(line@[c] != 0x3A);
                } else if c > i {
                    assert(line@[i as int] != 0x3A);
                }
            }
            if i == name.len() && eq_ci_at(line, 0, name) {
                Some(copy_range(line, i + 1, len))
            } else {
                None
            }
        },
    }
}

/// The bounds of `s` without leading and trailing spaces and tabs.
fn trim_bounds(s: &[u8]) -> (r: (usize, usize))
    ensures
        r.0 <= r.1 <= s@.len(),
        s@.subrange(r.0 as int, r.1 as int) == trim(s@),
{
    let n = s.len();
    let mut a: usize = 0;
    assert(s@.subrange(0, n as int) =~= s@);
    while a < n && (s[a] == 0x20 || s[a] == 0x09)
        invariant
            0 <= a <= n == s@.len(),
            trim_start(s@) == trim_start(s@.subrange(a as int, n as int)),
        decreases n - a,
    {
        assert(s@.subrange(a as int, n as int).drop_first() =~= s@.subrange(a + 1, n as int));
        a = a + 1;
    }
    let ghost t = s@.subrange(a as int, n as int);
    assert(trim_start(t) == t);
    let mut b: usize = n;
    assert(t =~= s@.subrange(a as int, b as int));
    while b > a && (s[b - 1] == 0x20 || s[b - 1] == 0x09)
        invariant
            a <= b <= n == s@.len(),
            trim_end(t) == trim_end(s@.subrange(a as int, b as int)),
        decreases b - a,
    {
        assert(s@.subrange(a as int, b as int).drop_last() =~= s@.subrange(a as int, b - 1));
        b = b - 1;
    }
    (a, b)
}

fn bytes_eq(a: &[u8], b: &[u8]) -> (r: bool)
    ensures
        r == (a@ == b@),
{
    if a.len() != b.len() {
        return false;
    }
    let mut i: usize = 0;
    while i < a.len()
        invariant
            a@.len() == b@.len(),
            0 <= i <= a@.len(),
            forall|j: int| 0 <= j < i ==> a@[j] == b@[j],
        decreases a@.len() - i,
    {
        if a[i] != b[i] {
            return false;
        }
        i = i + 1;
    }
    assert(a@ =~= b@);
    true
}


fn any_header_with(lines: &Vec<Vec<u8>>, name: &[u8], needle: &[u8]) -> (r: bool)
    ensures
        r == has_header_with(lines_view(lines@), name@, needle@),
{
    let ghost lv = lines_view(lines@);
    let mut h: usize = 1;
    while h < lines.len()
        invariant
            lv == lines_view(lines@),
            1 <= h,
            forall|k: int|
                1 <= k < h && k < lv.len() ==> !(#[trigger] header_value(lv[k], name@) matches Some(
                    v,
                ) && contains_ci(v, needle@)),
        decreases lines@.len() - h,
    {
        let line = lines[h].as_slice();
        assert(lv[h as int] == line@);
        match header_value_exec(line, name) {
            Some(v) => {
                if contains_ci_exec(v.as_slice(), needle) {
                    return true;
                }
            },
            None => {},
        }
        h = h + 1;
    }
    false
}

fn any_accept(lines: &Vec<Vec<u8>>, accept: &[u8]) -> (r: bool)
    ensures
        r == has_accept(lines_view(lines@), accept@),
{
    let ghost lv = lines_view(lines@);
    let name = "sec-websocket-accept".as_bytes();
    let mut h: usize = 1;
    while h < lines.len()
        invariant
            lv == lines_view(lines@),
            name@ == "sec-websocket-accept".spec_bytes(),
            1 <= h,
            forall|k: int|
                1 <= k < h && k < lv.len() ==> !(#[trigger] header_value(
                    lv[k],
                    "sec-websocket-accept".spec_bytes(),
                ) matches Some(v) && trim(v) == accept@),
        decreases lines@.len() - h,
    {
        let line = lines[h].as_slice();
        assert(lv[h as int] == line@);
        match header_value_exec(line, name) {
            Some(v) => {
                let (a, b) = trim_bounds(v.as_slice());
                let t = copy_range(v.as_slice(), a, b);
                if bytes_eq(t.as_slice(), accept) {
                    return true;
                }
            },
            None => {},
        }
        h = h + 1;
    }
    false
}

/// Checks a server's answer to the upgrade request. `lines` are its lines up to
/// the blank line, status line first, without line ends; `accept` is the value
/// that `accept_key` gives for the key that was sent.
pub fn check_response(lines: &Vec<Vec<u8>>, accept: &[u8]) -> (r: Result<(), HandshakeError>)
    ensures
        r == response_verdict(lines_view(lines@), accept@),
{
    let ghost lv = lines_view(lines@);
    if lines.len() == 0 {
        return Err(HandshakeError::BadStatus);
    }
    let first = lines[0].as_slice();
    assert(lv[0] == first@);
    let st = "HTTP/1.1 101".as_bytes();
    let fl = first.len();
    let status = fl >= st.len() && eq_prefix(first, st) && (fl == st.len() || first[st.len()]
        == 0x20);
    if !status {
        return Err(HandshakeError::BadStatus);
    }
    if !any_header_with(lines, "upgrade".as_bytes(), "websocket".as_bytes()) {
        return Err(HandshakeError::MissingUpgrade);
    }
    if !any_header_with(lines, "connection".as_bytes(), "upgrade".as_bytes()) {
        return Err(HandshakeError::MissingConnection);
    }
    if !any_accept(lines, accept) {
        return Err(HandshakeError::AcceptMismatch);
    }
    Ok(())
}

/// Checks a server's answer against the handshake key `key` that was sent: the
/// verdict of `check_response` for the accept value that `key` calls for.
pub fn check_handshake(lines: &Vec<Vec<u8>>, key: &[u8]) -> (r: Result<(), HandshakeError>)
    ensures
        r == response_verdict(lines_view(lines@), accept_spec(key@)),
{
    let accept = accept_key(key);
    check_response(lines, accept.as_slice())
}

/// Whether `s` starts with `p`.
fn eq_prefix(s: &[u8], p: &[u8]) -> (r: bool)
    requires
        p@.len() <= s@.len(),
    ensures
        r == (s@.subrange(0, p@.len() as int) == p@),
{
    let mut i: usize = 0;
    while i < p.len()
        invariant
            p@.len() <= s@.len(),
            0 <= i <= p@.len(),
            forall|j: int| 0 <= j < i ==> s@[j] == p@[j],
        decreases p@.len() - i,
    {
        if s[i] != p[i] {
            assert(s@.subrange(0, p@.len() as int)[i as int] != p@[i as int]);
            return false;
        }
        i = i + 1;
    }
    assert(s@.subrange(0, p@.len() as int) =~= p@);
    true
}

} // verus!
