//! Opening-handshake helpers shared by request and response handling:
//! `Sec-WebSocket-Accept` (RFC 6455 Section 4.2.2), `Sec-WebSocket-Key`
//! checks and the `Sec-WebSocket-Extensions` element grammar (Section 9.1).

use vstd::prelude::*;
use vstd::string::StringSliceAdditionalSpecFns;

use base64ct::{Base64, Encoding};

use crate::error::{Error, ErrorKind};
use crate::extension::{copy_range, find_char};
use crate::text::{concat_str, str_chars, trim, trim_range};
use crate::token::{chars_are_token, is_token};

verus! {

// ---------------------------------------------------------------------------
// Outside crates
// ---------------------------------------------------------------------------

/// What `base64ct::Base64::encode_string` returns for `data`: standard,
/// padded Base64.
pub uninterp spec fn spec_base64_encode(data: Seq<u8>) -> Seq<char>;

/// What `base64ct::Base64::decode_vec` returns for `s`: the decoded bytes, or
/// `None` when `s` is not valid padded Base64.
pub uninterp spec fn spec_base64_decode(s: Seq<char>) -> Option<Seq<u8>>;

/// What `aws_lc_rs::digest::digest` with `SHA1_FOR_LEGACY_USE_ONLY` returns
/// for `data`: its SHA-1 digest.
pub uninterp spec fn spec_sha1(data: Seq<u8>) -> Seq<u8>;

/// Calls `base64ct::Base64::encode_string`. The contract names its result and
/// states the round trip its documentation shows: decoding the encoding with
/// `decode_vec` gives the input back. It panics above `usize::MAX / 4`
/// input bytes, which `requires` excludes.
#[verifier::external_body]
fn base64_encode(data: &[u8]) -> (r: String)
    requires
        data@.len() <= usize::MAX / 4,
    ensures
        r@ == spec_base64_encode(data@),
        spec_base64_decode(r@) == Some(data@),
{
    Base64::encode_string(data)
}

/// Calls `base64ct::Base64::decode_vec`; the result is named, `None` standing
/// for its error.
#[verifier::external_body]
fn base64_decode(s: &str) -> (r: Option<Vec<u8>>)
    ensures
        r is Some <==> spec_base64_decode(s@) is Some,
        r matches Some(v) ==> spec_base64_decode(s@) == Some(v@),
{
    Base64::decode_vec(s).ok()
}

/// Calls `aws_lc_rs::digest::digest` with `SHA1_FOR_LEGACY_USE_ONLY`. The
/// result is named; a SHA-1 digest is 20 bytes.
#[verifier::external_body]
fn sha1_digest(data: &[u8]) -> (r: Vec<u8>)
    ensures
        r@ == spec_sha1(data@),
        r@.len() == 20,
{
    aws_lc_rs::digest::digest(&aws_lc_rs::digest::SHA1_FOR_LEGACY_USE_ONLY, data).as_ref().to_vec()
}

// ---------------------------------------------------------------------------
// Sec-WebSocket-Accept
// ---------------------------------------------------------------------------

/// The GUID appended to the key (RFC 6455 Section 4.2.2).
pub open spec fn websocket_guid() -> Seq<char> {
    "258EAFA5-E914-47DA-95CA-C5AB0DC85B11"@
}

/// `Sec-WebSocket-Accept` for a `Sec-WebSocket-Key`: Base64 of the SHA-1 of
/// the key followed by the GUID.
pub open spec fn spec_accept_from_key(key: Seq<char>) -> Seq<char> {
    spec_base64_encode(spec_sha1(vstd::utf8::encode_utf8(key + websocket_guid())))
}

/// The `Sec-WebSocket-Key` a client sends for a nonce.
pub open spec fn spec_key_of_nonce(nonce: Seq<u8>) -> Seq<char> {
    spec_base64_encode(nonce)
}

/// `Sec-WebSocket-Accept` computed from a `Sec-WebSocket-Key`.
pub fn calculate_accept_from_key(key: &str) -> (r: String)
    ensures
        r@ == spec_accept_from_key(key@),
{
    let combined = concat_str(key, "258EAFA5-E914-47DA-95CA-C5AB0DC85B11");
    let hash = sha1_digest(combined.as_str().as_bytes());
    base64_encode(hash.as_slice())
}

/// The `Sec-WebSocket-Key` a client sends for `nonce`: its Base64 encoding.
pub fn client_key(nonce: &[u8; 16]) -> (r: String)
    ensures
        r@ == spec_key_of_nonce(nonce@),
{
    base64_encode(nonce.as_slice())
}

/// `Sec-WebSocket-Accept` the server must answer to the key a client derives
/// from `nonce`.
pub fn calculate_accept(nonce: &[u8; 16]) -> (r: String)
    ensures
        r@ == spec_accept_from_key(spec_key_of_nonce(nonce@)),
{
    let key = base64_encode(nonce.as_slice());
    calculate_accept_from_key(key.as_str())
}

/// Whether a `Sec-WebSocket-Key` is valid: Base64 of exactly 16 bytes.
pub open spec fn spec_valid_key(key: Seq<char>) -> bool {
    spec_base64_decode(key) matches Some(b) && b.len() == 16
}

/// Checks a `Sec-WebSocket-Key` (RFC 6455 Section 4.1): it must be the
/// Base64 encoding of 16 bytes.
pub fn validate_key(key: &str) -> (r: Result<(), Error>)
    ensures
        r is Ok <==> spec_valid_key(key@),
        r matches Err(e) ==> e.kind == ErrorKind::HandshakeRejected && e.reason@
            == "invalid Sec-WebSocket-Key"@ && e.close_code is None,
{
    match base64_decode(key) {
        Some(decoded) => {
            if decoded.len() != 16 {
                return Err(Error::with_text(ErrorKind::HandshakeRejected, "invalid Sec-WebSocket-Key"));
            }
            Ok(())
        },
        None => Err(Error::with_text(ErrorKind::HandshakeRejected, "invalid Sec-WebSocket-Key")),
    }
}

/// The key a client sends for any nonce is one a server accepts.
pub proof fn lemma_client_key_is_valid(nonce: Seq<u8>)
    requires
        nonce.len() == 16,
        spec_base64_decode(spec_key_of_nonce(nonce)) == Some(nonce),
    ensures
        spec_valid_key(spec_key_of_nonce(nonce)),
{
}

// ---------------------------------------------------------------------------
// Sec-WebSocket-Extensions element grammar
// ---------------------------------------------------------------------------

/// The pieces of `s` from position `j` on, cut at every `d`.
pub open spec fn plain_split_from(s: Seq<char>, d: char, j: int, start: int) -> Seq<Seq<char>>
    decreases s.len() - j,
{
    if j >= s.len() {
        seq![s.subrange(start, s.len() as int)]
    } else if s[j] == d {
        seq![s.subrange(start, j)] + plain_split_from(s, d, j + 1, j + 1)
    } else {
        plain_split_from(s, d, j + 1, start)
    }
}

/// `str::split`: `s` cut at every `d`.
pub open spec fn plain_split(s: Seq<char>, d: char) -> Seq<Seq<char>> {
    plain_split_from(s, d, 0, 0)
}

/// `qdtext = HTAB / SP / %x21 / %x23-5B / %x5D-7E`
pub open spec fn is_qdtext(c: char) -> bool {
    c == '\t' || c == ' ' || c == '!' || ('#' <= c && c <= '[') || (']' <= c && c <= '~')
}

/// Reading a quoted string from position `i` with `acc` unescaped so far:
/// the unescaped content when the closing quote is the last character, or
/// the kind of fault: a dangling backslash, a character that is not
/// `qdtext` (a backslash escapes ASCII characters only), characters after
/// the closing quote, or a missing closing quote.
pub open spec fn quoted_scan(v: Seq<char>, i: int, acc: Seq<char>) -> Result<Seq<char>, Seq<char>>
    decreases v.len() - i,
{
    if i >= v.len() || i < 0 {
        Err("unclosed quoted-string in extension-param"@)
    } else if v[i] == '\\' {
        if i + 1 >= v.len() {
            Err("incomplete escape sequence in quoted-string"@)
        } else if (v[i + 1] as u32) > 0x7F {
            Err("invalid character in quoted-string"@)
        } else {
            quoted_scan(v, i + 2, acc.push(v[i + 1]))
        }
    } else if v[i] == '"' {
        if i + 1 != v.len() {
            Err("trailing characters after closing DQUOTE"@)
        } else {
            Ok(acc)
        }
    } else if !is_qdtext(v[i]) {
        Err("invalid character in quoted-string"@)
    } else {
        quoted_scan(v, i + 1, acc.push(v[i]))
    }
}

/// `: 'p'`, the way a reason quotes the text it refers to.
pub open spec fn quoted_text(p: Seq<char>) -> Seq<char> {
    ": '"@ + p + "'"@
}

/// What is wrong with the trimmed `extension-param` `p` of element `e`
/// (`token [ "=" ( token / quoted-string ) ]`), if anything.
pub open spec fn param_problem(p: Seq<char>, e: Seq<char>) -> Option<Seq<char>> {
    if p.len() == 0 {
        Some("trailing ';' in Sec-WebSocket-Extensions"@ + quoted_text(e))
    } else {
        match find_char(p, '=') {
            Some(k) => {
                let name = trim(p.take(k));
                let value = trim(p.subrange(k + 1, p.len() as int));
                if !is_token(name) {
                    Some("invalid extension-param name"@ + quoted_text(name))
                } else if value.len() > 0 && value[0] == '"' {
                    match quoted_scan(value, 1, Seq::empty()) {
                        Err(m) => Some(m + quoted_text(p)),
                        Ok(u) => if is_token(u) {
                            None
                        } else {
                            Some("quoted-string value after unescaping is not a valid token"@ + quoted_text(p))
                        },
                    }
                } else if !is_token(value) {
                    Some("invalid extension-param value"@ + quoted_text(p))
                } else {
                    None
                }
            },
            None => if is_token(p) {
                None
            } else {
                Some("invalid extension-param name"@ + quoted_text(p))
            },
        }
    }
}

/// The problem with the first faulty parameter from piece `k` on.
pub open spec fn params_problem(parts: Seq<Seq<char>>, e: Seq<char>, k: int) -> Option<Seq<char>>
    decreases parts.len() - k,
{
    if k >= parts.len() || k < 1 {
        None
    } else {
        match param_problem(trim(parts[k]), e) {
            Some(m) => Some(m),
            None => params_problem(parts, e, k + 1),
        }
    }
}

/// Why the element `e` breaks `extension = extension-token *( ";"
/// extension-param )` (RFC 6455 Section 9.1), splitting on every `;`, if it
/// does: its name, or its first faulty parameter.
pub open spec fn spec_entry_problem(e: Seq<char>) -> Option<Seq<char>> {
    let parts = plain_split(e, ';');
    let token = trim(parts[0]);
    if !is_token(token) {
        Some("invalid Sec-WebSocket-Extensions token: "@ + token)
    } else {
        params_problem(parts, e, 1)
    }
}

/// Whether the element `e` follows the grammar.
pub open spec fn spec_valid_extension_entry(e: Seq<char>) -> bool {
    spec_entry_problem(e) is None
}

/// Why an element breaks the grammar.
pub open spec fn entry_error(e: Seq<char>) -> Seq<char> {
    match spec_entry_problem(e) {
        Some(m) => m,
        None => Seq::empty(),
    }
}

/// Bounds of the `;`-separated pieces of `s`.
pub fn plain_split_ranges(s: &[char], d: char) -> (r: Vec<(usize, usize)>)
    ensures
        r@.len() == plain_split(s@, d).len(),
        r@.len() >= 1,
        forall|k: int|
            0 <= k < r@.len() ==> #[trigger] r@[k].0 <= r@[k].1 <= s@.len() && s@.subrange(
                r@[k].0 as int,
                r@[k].1 as int,
            ) == plain_split(s@, d)[k],
{
    let mut out: Vec<(usize, usize)> = Vec::new();
    let ghost mut acc: Seq<Seq<char>> = Seq::empty();
    let mut start: usize = 0;
    let mut i: usize = 0;
    while i < s.len()
        invariant
            start <= i <= s@.len(),
            plain_split(s@, d) == acc + plain_split_from(s@, d, i as int, start as int),
            out@.len() == acc.len(),
            forall|k: int|
                0 <= k < out@.len() ==> #[trigger] out@[k].0 <= out@[k].1 <= s@.len()
                    && s@.subrange(out@[k].0 as int, out@[k].1 as int) == acc[k],
        decreases s@.len() - i,
    {
        if s[i] == d {
            out.push((start, i));
            proof {
                let piece = s@.subrange(start as int, i as int);
                assert(acc + (seq![piece] + plain_split_from(s@, d, i + 1, i + 1)) =~= acc.push(
                    piece,
                ) + plain_split_from(s@, d, i + 1, i + 1));
                acc = acc.push(piece);
            }
            start = i + 1;
        }
        i = i + 1;
    }
    out.push((start, s.len()));
    proof {
        let piece = s@.subrange(start as int, s@.len() as int);
        acc = acc.push(piece);
    }
    out
}

fn qdtext(c: char) -> (r: bool)
    ensures
        r == is_qdtext(c),
{
    c == '\t' || c == ' ' || c == '!' || ('#' <= c && c <= '[') || (']' <= c && c <= '~')
}

/// Reads the quoted string `v` (which starts with `"`).
fn scan_quoted(v: &[char]) -> (r: Result<Vec<char>, &'static str>)
    requires
        v@.len() > 0,
        v@[0] == '"',
    ensures
        match quoted_scan(v@, 1, Seq::empty()) {
            Ok(u) => r matches Ok(x) && x@ == u,
            Err(m) => r matches Err(t) && t@ == m,
        },
{
    let mut i: usize = 1;
    let mut unescaped: Vec<char> = Vec::new();
    while i < v.len()
        invariant
            1 <= i <= v@.len(),
            quoted_scan(v@, 1, Seq::empty()) == quoted_scan(v@, i as int, unescaped@),
        decreases v@.len() - i,
    {
        let b = v[i];
        if b == '\\' {
            if i + 1 >= v.len() {
                return Err("incomplete escape sequence in quoted-string");
            }
            if (v[i + 1] as u32) > 0x7F {
                return Err("invalid character in quoted-string");
            }
            unescaped.push(v[i + 1]);
            i = i + 2;
        } else if b == '"' {
            if i + 1 != v.len() {
                return Err("trailing characters after closing DQUOTE");
            }
            return Ok(unescaped);
        } else {
            if !qdtext(b) {
                return Err("invalid character in quoted-string");
            }
            unescaped.push(b);
            i = i + 1;
        }
    }
    Err("unclosed quoted-string in extension-param")
}

/// `prefix: 'p'`.
fn quoted_reason(prefix: &str, p: &[char]) -> (r: String)
    ensures
        r@ == prefix@ + quoted_text(p@),
{
    let a = concat_str(prefix, ": '");
    let b = concat_str(a.as_str(), crate::text::string_from_chars(p).as_str());
    let r = concat_str(b.as_str(), "'");
    assert(r@ =~= prefix@ + quoted_text(p@));
    r
}

/// Checks one `extension-param` piece `s[a..b]` (before trimming) of the
/// element `ext`.
#[verifier::rlimit(40)]
fn check_entry_param(s: &[char], a: usize, b: usize, ext: &str) -> (r: Option<String>)
    requires
        a <= b <= s@.len(),
    ensures
        crate::connection_types::opt_string_view(r) == param_problem(trim(s@.subrange(a as int, b as int)), ext@),
{
    let (plo, phi) = trim_range(s, a, b);
    let ghost p = s@.subrange(plo as int, phi as int);
    if plo == phi {
        let e = str_chars(ext);
        return Some(quoted_reason("trailing ';' in Sec-WebSocket-Extensions", e.as_slice()));
    }
    let whole = copy_range(s, plo, phi);
    match crate::extension::find_char_in(s, plo, phi, '=') {
        Some(e) => {
            let (nlo, nhi) = trim_range(s, plo, e);
            let (vlo, vhi) = trim_range(s, e + 1, phi);
            proof {
                assert(p.take(e - plo) =~= s@.subrange(plo as int, e as int));
                assert(p.subrange(e - plo + 1, p.len() as int) =~= s@.subrange(e + 1, phi as int));
            }
            let name = copy_range(s, nlo, nhi);
            if !chars_are_token(name.as_slice()) {
                return Some(quoted_reason("invalid extension-param name", name.as_slice()));
            }
            let value = copy_range(s, vlo, vhi);
            if value.len() > 0 && value[0] == '"' {
                match scan_quoted(value.as_slice()) {
                    Err(m) => Some(quoted_reason(m, whole.as_slice())),
                    Ok(u) => if chars_are_token(u.as_slice()) {
                        None
                    } else {
                        Some(
                            quoted_reason(
                                "quoted-string value after unescaping is not a valid token",
                                whole.as_slice(),
                            ),
                        )
                    },
                }
            } else if !chars_are_token(value.as_slice()) {
                Some(quoted_reason("invalid extension-param value", whole.as_slice()))
            } else {
                None
            }
        },
        None => {
            if chars_are_token(whole.as_slice()) {
                None
            } else {
                Some(quoted_reason("invalid extension-param name", whole.as_slice()))
            }
        },
    }
}

/// Checks one `Sec-WebSocket-Extensions` element against the RFC 6455
/// Section 9.1 grammar. Parameters are split on every `;`, so a quoted value
/// holding `;` is not supported and is rejected.
pub fn validate_extension_entry(ext: &str) -> (r: Result<(), Error>)
    ensures
        match spec_entry_problem(ext@) {
            None => r is Ok,
            Some(m) => r matches Err(e) && e.kind == ErrorKind::HandshakeRejected && e.reason@ == m,
        },
        r is Ok <==> spec_valid_extension_entry(ext@),
        r matches Err(e) ==> e.kind == ErrorKind::HandshakeRejected && e.reason@ == entry_error(ext@),
{
    let cs = str_chars(ext);
    let parts = plain_split_ranges(cs.as_slice(), ';');
    let ghost ps = plain_split(ext@, ';');
    let (a0, b0) = parts[0];
    let (tlo, thi) = trim_range(cs.as_slice(), a0, b0);
    let token = copy_range(cs.as_slice(), tlo, thi);
    if !chars_are_token(token.as_slice()) {
        let reason = concat_str(
            "invalid Sec-WebSocket-Extensions token: ",
            crate::text::string_from_chars(token.as_slice()).as_str(),
        );
        return Err(Error::with_reason(ErrorKind::HandshakeRejected, reason));
    }
    let mut k: usize = 1;
    while k < parts.len()
        invariant
            1 <= k <= parts@.len(),
            cs@ == ext@,
            ps == plain_split(ext@, ';'),
            parts@.len() == ps.len(),
            forall|m: int|
                0 <= m < parts@.len() ==> #[trigger] parts@[m].0 <= parts@[m].1 <= cs@.len()
                    && cs@.subrange(parts@[m].0 as int, parts@[m].1 as int) == ps[m],
            params_problem(ps, ext@, 1) == params_problem(ps, ext@, k as int),
            is_token(trim(ps[0])),
        decreases parts@.len() - k,
    {
        let (a, b) = parts[k];
        match check_entry_param(cs.as_slice(), a, b, ext) {
            Some(m) => {
                return Err(Error::with_reason(ErrorKind::HandshakeRejected, m));
            },
            None => {},
        }
        k = k + 1;
    }
    Ok(())
}

} // verus!
