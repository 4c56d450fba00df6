//! The server side of a connection (sans I/O): accepting or rejecting the
//! opening handshake, then the shared frame handling.

use vstd::prelude::*;

use crate::client::{all_extensions, exceeds, has_param, pmd_entries};
use crate::close::CloseCode;
use crate::connection_types::{
    opt_string_view, spec_can_transition, state_rank, strings_view, ConnectionEvent, ConnectionOutput,
    ConnectionState, EventSpec, OutputSpec, TimerId,
};
use crate::deflate::PerMessageDeflate;
use crate::error::{headers_view, Error, ErrorKind};
use crate::extension::{
    cmwb_name, parse_error_text, pmd_name, smwb_name, spec_config_params, spec_encode_extension,
    spec_from_extension_validated,
    spec_parse_extensions, spec_split, spec_strict_error, ExtSpec, Extension,
    ExtensionParam, ExtensionParseContext, ParamSpec, PerMessageDeflateConfig,
};
use crate::request::{field_lines, push_field, response_has_body, response_head};
use crate::response::{join, join_values, ServerHandshakeResponse, ServerResponseSpec};
use crate::server_request::{RequestRefusal, ServerHandshakeRequest, ServerRequestSpec};
use crate::shared::{
    ServerFramePolicy, SharedConnectionState, SharedView, DEFAULT_MAX_DECOMPRESSED_SIZE,
    DEFAULT_MAX_FRAME_SIZE, DEFAULT_MAX_MESSAGE_SIZE,
};
use crate::text::{ci_eq, concat_str, decimal, spec_parse_u8, str_chars, str_eq, string_from_str};

verus! {

/// Most bytes buffered while a received request waits to be accepted (1 MiB).
pub const MAX_PENDING_FRAME_DATA: usize = 1024 * 1024;

// ---------------------------------------------------------------------------
// Checking the server's own response
// ---------------------------------------------------------------------------

/// Whether some extension the client offered is named `name`.
pub open spec fn offered_name(req_exts: Seq<Seq<char>>, name: Seq<char>) -> bool {
    exists|i: int| 0 <= i < all_extensions(req_exts).len() && #[trigger] all_extensions(req_exts)[i].name == name
}

/// Whether every extension in `es` was offered.
pub open spec fn all_offered(es: Seq<ExtSpec>, req_exts: Seq<Seq<char>>) -> bool {
    forall|i: int| 0 <= i < es.len() ==> offered_name(req_exts, #[trigger] es[i].name)
}

/// The first problem with the server's extension elements from `k` on: one
/// that breaks the grammar (RFC 6455 Section 9.1), holds no extension, or
/// names an extension the client did not offer.
pub open spec fn response_extension_problem(resp_exts: Seq<Seq<char>>, req_exts: Seq<Seq<char>>, k: int) -> Option<Seq<char>>
    decreases resp_exts.len() - k,
{
    if k >= resp_exts.len() || k < 0 {
        None
    } else {
        match spec_strict_error(spec_split(resp_exts[k], ','), 0) {
            Some(m) => Some("invalid extension response '"@ + resp_exts[k] + "': "@ + m),
            None => {
                let parsed = spec_parse_extensions(resp_exts[k]);
                if parsed.len() == 0 {
                    Some("invalid extension response: '"@ + resp_exts[k] + "'"@)
                } else if !all_offered(parsed, req_exts) {
                    Some("unsupported extension: "@ + resp_exts[k])
                } else {
                    response_extension_problem(resp_exts, req_exts, k + 1)
                }
            },
        }
    }
}

/// Whether `n` is the name of a field the library sets itself (compared
/// ignoring ASCII case); the response may not hold it twice (RFC 6455
/// Section 11.3).
pub open spec fn is_reserved_name(n: Seq<char>) -> bool {
    ci_eq(n, "upgrade"@) || ci_eq(n, "connection"@) || ci_eq(n, "sec-websocket-accept"@) || ci_eq(
        n,
        "sec-websocket-protocol"@,
    ) || ci_eq(n, "sec-websocket-extensions"@)
}

/// The first extra field from `k` on with a reserved name.
pub open spec fn first_reserved(hs: Seq<(Seq<char>, Seq<char>)>, k: int) -> Option<Seq<char>>
    decreases hs.len() - k,
{
    if k >= hs.len() || k < 0 {
        None
    } else if is_reserved_name(hs[k].0) {
        Some(hs[k].0)
    } else {
        first_reserved(hs, k + 1)
    }
}

/// Checking a response before it is sent: the subprotocol must have been
/// offered; each extension element must be well-formed, non-empty and
/// offered; at most one permessage-deflate element (RFC 7692 Section 7); and
/// no extra field may take the name of one the library sets.
pub open spec fn spec_check_server_response(req: ServerRequestSpec, resp: ServerResponseSpec) -> Option<RequestRefusal> {
    if resp.protocol is Some && !req.protocols.contains(resp.protocol->0) {
        Some(RequestRefusal { kind: ErrorKind::HandshakeRejected, reason: "unsupported protocol: "@ + resp.protocol->0 })
    } else {
        match response_extension_problem(resp.extensions, req.extensions, 0) {
            Some(m) => Some(RequestRefusal { kind: ErrorKind::HandshakeRejected, reason: m }),
            None => if pmd_entries(all_extensions(resp.extensions)).len() > 1 {
                Some(
                    RequestRefusal {
                        kind: ErrorKind::HandshakeRejected,
                        reason: "response contains multiple permessage-deflate elements"@,
                    },
                )
            } else {
                match first_reserved(resp.additional_headers, 0) {
                    Some(n) => Some(
                        RequestRefusal {
                            kind: ErrorKind::InvalidInput,
                            reason: "additional header '"@ + n + "' conflicts with a reserved WebSocket header"@,
                        },
                    ),
                    None => None,
                }
            },
        }
    }
}

// ---------------------------------------------------------------------------
// permessage-deflate agreement
// ---------------------------------------------------------------------------

/// The first parameter from `k` on named `name`.
pub open spec fn first_param(ps: Seq<ParamSpec>, name: Seq<char>, k: int) -> Option<ParamSpec>
    decreases ps.len() - k,
{
    if k >= ps.len() || k < 0 {
        None
    } else if ps[k].name == name {
        Some(ps[k])
    } else {
        first_param(ps, name, k + 1)
    }
}

/// The server window size an offer asks for, when it is a number that fits
/// in a byte.
pub open spec fn offered_smwb_of(e: ExtSpec) -> Option<u8> {
    match first_param(e.params, smwb_name(), 0) {
        Some(p) => match p.value {
            Some(v) => spec_parse_u8(v),
            None => None,
        },
        None => None,
    }
}

/// The server window size of the first permessage-deflate offer from `k` on
/// that states one.
pub open spec fn first_offered_smwb(es: Seq<ExtSpec>, k: int) -> Option<u8>
    decreases es.len() - k,
{
    if k >= es.len() || k < 0 {
        None
    } else if es[k].name == pmd_name() && offered_smwb_of(es[k]) is Some {
        offered_smwb_of(es[k])
    } else {
        first_offered_smwb(es, k + 1)
    }
}

/// Whether some permessage-deflate offer has `client_max_window_bits`.
pub open spec fn offered_cmwb(req_exts: Seq<Seq<char>>) -> bool {
    exists|i: int|
        0 <= i < all_extensions(req_exts).len() && #[trigger] all_extensions(req_exts)[i].name == pmd_name()
            && has_param(all_extensions(req_exts)[i], cmwb_name())
}

/// Checking one permessage-deflate element of the response against the
/// request (RFC 7692 Section 7.1.2): it must be a valid response; the
/// server window must be 15 bits (the encoder's only size) and within the
/// offer; and a client window size may only be sent back if one was offered.
pub open spec fn deflate_element_decision(e: ExtSpec, req_exts: Seq<Seq<char>>) -> Result<PerMessageDeflateConfig, Seq<char>> {
    match spec_from_extension_validated(e, ExtensionParseContext::ClientResponse) {
        Err(pe) => Err("invalid permessage-deflate parameters: "@ + parse_error_text(pe)),
        Ok(config) => {
            let offered = first_offered_smwb(all_extensions(req_exts), 0);
            if config.server_max_window_bits is Some && config.server_max_window_bits->0 < 15 {
                Err(
                    "server_max_window_bits="@ + decimal(config.server_max_window_bits->0 as nat)
                        + " is not supported (only 15 is supported)"@,
                )
            } else if exceeds(config.server_max_window_bits, offered) {
                Err(
                    "server_max_window_bits="@ + decimal(config.server_max_window_bits->0 as nat)
                        + " exceeds client offer="@ + decimal(offered->0 as nat),
                )
            } else if has_param(e, cmwb_name()) && !offered_cmwb(req_exts) {
                Err("client_max_window_bits included without client offer"@)
            } else {
                Ok(config)
            }
        },
    }
}

/// The permessage-deflate configuration the response agrees to, reading its
/// elements from `k` on with `acc` agreed so far; the last valid element
/// wins.
pub open spec fn deflate_agreement(es: Seq<ExtSpec>, req_exts: Seq<Seq<char>>, k: int, acc: Option<PerMessageDeflateConfig>) -> Result<Option<PerMessageDeflateConfig>, Seq<char>>
    decreases es.len() - k,
{
    if k >= es.len() || k < 0 {
        Ok(acc)
    } else if es[k].name == pmd_name() {
        match deflate_element_decision(es[k], req_exts) {
            Err(m) => Err(m),
            Ok(c) => deflate_agreement(es, req_exts, k + 1, Some(c)),
        }
    } else {
        deflate_agreement(es, req_exts, k + 1, acc)
    }
}

/// The first offered subprotocol from `k` on that the server supports.
pub open spec fn spec_select_protocol(offered: Seq<Seq<char>>, supported: Seq<Seq<char>>, k: int) -> Option<Seq<char>>
    decreases offered.len() - k,
{
    if k >= offered.len() || k < 0 {
        None
    } else if supported.contains(offered[k]) {
        Some(offered[k])
    } else {
        spec_select_protocol(offered, supported, k + 1)
    }
}

proof fn lemma_select_protocol_from(offered: Seq<Seq<char>>, supported: Seq<Seq<char>>, k: int)
    requires
        0 <= k,
    ensures
        match spec_select_protocol(offered, supported, k) {
            Some(p) => exists|i: int|
                k <= i < offered.len() && #[trigger] offered[i] == p && supported.contains(p) && forall|j: int|
                    k <= j < i ==> !supported.contains(#[trigger] offered[j]),
            None => forall|j: int| k <= j < offered.len() ==> !supported.contains(#[trigger] offered[j]),
        },
    decreases offered.len() - k,
{
    if k >= offered.len() {
    } else if supported.contains(offered[k]) {
        assert(offered[k] == offered[k]);
    } else {
        lemma_select_protocol_from(offered, supported, k + 1);
        match spec_select_protocol(offered, supported, k + 1) {
            Some(p) => {
                let i = choose|i: int|
                    k + 1 <= i < offered.len() && #[trigger] offered[i] == p && supported.contains(p) && forall|
                        j: int,
                    |
                        k + 1 <= j < i ==> !supported.contains(#[trigger] offered[j]);
                assert forall|j: int| k <= j < i implies !supported.contains(#[trigger] offered[j]) by {
                    if j > k {
                    }
                }
                assert(offered[i] == p);
            },
            None => {},
        }
    }
}

/// The subprotocol a server picks (RFC 6455 Section 4.2.2) is the first one
/// in the client's offer that the server supports: it was offered, it is
/// supported, and no protocol offered before it is supported; when none is
/// picked, the server supports none of the offered protocols.
pub proof fn lemma_select_protocol_first_supported(offered: Seq<Seq<char>>, supported: Seq<Seq<char>>)
    ensures
        match spec_select_protocol(offered, supported, 0) {
            Some(p) => exists|i: int|
                0 <= i < offered.len() && #[trigger] offered[i] == p && supported.contains(p) && forall|j: int|
                    0 <= j < i ==> !supported.contains(#[trigger] offered[j]),
            None => forall|j: int| 0 <= j < offered.len() ==> !supported.contains(#[trigger] offered[j]),
        },
{
    lemma_select_protocol_from(offered, supported, 0);
}

/// The configuration for the first acceptable permessage-deflate offer from
/// `k` on: a valid offer whose server window is not below 15 bits, merged
/// with the server's own configuration.
pub open spec fn spec_select_deflate(es: Seq<ExtSpec>, server: PerMessageDeflateConfig, k: int) -> Option<PerMessageDeflateConfig>
    decreases es.len() - k,
{
    if k >= es.len() || k < 0 {
        None
    } else if es[k].name == pmd_name() {
        match spec_from_extension_validated(es[k], ExtensionParseContext::ServerRequest) {
            Ok(cr) => if cr.server_max_window_bits is Some && cr.server_max_window_bits->0 < 15 {
                spec_select_deflate(es, server, k + 1)
            } else {
                Some(crate::extension::spec_negotiate(cr, server))
            },
            Err(_) => spec_select_deflate(es, server, k + 1),
        }
    } else {
        spec_select_deflate(es, server, k + 1)
    }
}

/// The header fields of the 101 response, in order: `Upgrade`, `Connection`,
/// `Sec-WebSocket-Accept`, the subprotocol and the extensions when there are
/// any, then the extra fields.
pub open spec fn spec_response_fields(req: ServerRequestSpec, resp: ServerResponseSpec) -> Seq<(Seq<char>, Seq<char>)> {
    seq![
        ("Upgrade"@, "websocket"@),
        ("Connection"@, "Upgrade"@),
        ("Sec-WebSocket-Accept"@, crate::handshake::spec_accept_from_key(req.key)),
    ] + (match resp.protocol {
        Some(p) => seq![("Sec-WebSocket-Protocol"@, p)],
        None => Seq::empty(),
    }) + (if resp.extensions.len() > 0 {
        seq![("Sec-WebSocket-Extensions"@, join(resp.extensions, ", "@))]
    } else {
        Seq::empty()
    }) + resp.additional_headers
}

// ---------------------------------------------------------------------------
// Executable checks
// ---------------------------------------------------------------------------

fn parse_all(exts: &Vec<String>) -> (r: Vec<Extension>)
    ensures
        r@.map_values(|e: Extension| e@) == all_extensions(strings_view(exts@)),
{
    let ghost es = strings_view(exts@);
    let mut out: Vec<Extension> = Vec::new();
    let mut k: usize = 0;
    while k < exts.len()
        invariant
            k <= exts@.len(),
            es == strings_view(exts@),
            out@.map_values(|e: Extension| e@) == all_extensions(es.take(k as int)),
        decreases exts@.len() - k,
    {
        let mut parsed = Extension::parse(exts[k].as_str());
        let ghost before = out@;
        let ghost added = parsed@;
        out.append(&mut parsed);
        proof {
            assert(out@.map_values(|e: Extension| e@) =~= before.map_values(|e: Extension| e@) + added.map_values(|e: Extension| e@));
            assert(es.take(k + 1).drop_last() =~= es.take(k as int));
            assert(es.take(k + 1).last() == es[k as int]);
            assert(es[k as int] == exts@[k as int]@);
        }
        k = k + 1;
    }
    assert(es.take(exts@.len() as int) =~= es);
    out
}

fn name_offered(all: &Vec<Extension>, name: &str) -> (r: bool)
    ensures
        r == (exists|i: int| 0 <= i < all@.len() && #[trigger] all@[i]@.name == name@),
{
    let mut i: usize = 0;
    while i < all.len()
        invariant
            i <= all@.len(),
            forall|j: int| 0 <= j < i ==> #[trigger] all@[j]@.name != name@,
        decreases all@.len() - i,
    {
        if str_eq(all[i].name.as_str(), name) {
            assert(all@[i as int]@.name == name@);
            return true;
        }
        i = i + 1;
    }
    false
}

fn contains_str(v: &Vec<String>, s: &str) -> (r: bool)
    ensures
        r == strings_view(v@).contains(s@),
{
    let mut i: usize = 0;
    while i < v.len()
        invariant
            i <= v@.len(),
            forall|j: int| 0 <= j < i ==> #[trigger] strings_view(v@)[j] != s@,
        decreases v@.len() - i,
    {
        if str_eq(v[i].as_str(), s) {
            assert(strings_view(v@)[i as int] == s@);
            return true;
        }
        i = i + 1;
    }
    false
}

fn reserved_name(n: &str) -> (r: bool)
    ensures
        r == is_reserved_name(n@),
{
    let cs = str_chars(n);
    let a = str_chars("upgrade");
    let b = str_chars("connection");
    let c = str_chars("sec-websocket-accept");
    let d = str_chars("sec-websocket-protocol");
    let e = str_chars("sec-websocket-extensions");
    crate::text::chars_ci_eq(cs.as_slice(), a.as_slice()) || crate::text::chars_ci_eq(cs.as_slice(), b.as_slice())
        || crate::text::chars_ci_eq(cs.as_slice(), c.as_slice()) || crate::text::chars_ci_eq(
        cs.as_slice(),
        d.as_slice(),
    ) || crate::text::chars_ci_eq(cs.as_slice(), e.as_slice())
}

/// Checks a response before it is sent, as [`spec_check_server_response`]
/// states.
pub fn validate_handshake_response(request: &ServerHandshakeRequest, response: &ServerHandshakeResponse) -> (r: Result<(), Error>)
    ensures
        match spec_check_server_response(request@, response@) {
            None => r is Ok,
            Some(f) => r matches Err(e) && e.kind == f.kind && e.reason@ == f.reason,
        },
{
    let ghost req = request@;
    let ghost resp = response@;
    if let Some(p) = &response.protocol {
        if !contains_str(&request.protocols, p.as_str()) {
            return Err(
                Error::with_reason(ErrorKind::HandshakeRejected, concat_str("unsupported protocol: ", p.as_str())),
            );
        }
    }
    let offered_all = parse_all(&request.extensions);
    let ghost es = resp.extensions;
    let mut k: usize = 0;
    while k < response.extensions.len()
        invariant
            k <= response.extensions@.len(),
            es == strings_view(response.extensions@),
            req == request@,
            resp == response@,
            offered_all@.map_values(|e: Extension| e@) == all_extensions(req.extensions),
            response_extension_problem(es, req.extensions, 0) == response_extension_problem(es, req.extensions, k as int),
            !(resp.protocol is Some && !req.protocols.contains(resp.protocol->0)),
        decreases response.extensions@.len() - k,
    {
        let ext = response.extensions[k].as_str();
        proof {
            assert(es[k as int] == ext@);
        }
        let parsed = match Extension::parse_strict(ext) {
            Err(e) => {
                let a = concat_str("invalid extension response '", ext);
                let b = concat_str(a.as_str(), "': ");
                return Err(Error::with_reason(ErrorKind::HandshakeRejected, concat_str(b.as_str(), e.reason.as_str())));
            },
            Ok(v) => v,
        };
        if parsed.len() == 0 {
            let a = concat_str("invalid extension response: '", ext);
            return Err(Error::with_reason(ErrorKind::HandshakeRejected, concat_str(a.as_str(), "'")));
        }
        let ghost pv = parsed@.map_values(|e: Extension| e@);
        let mut i: usize = 0;
        while i < parsed.len()
            invariant
                i <= parsed@.len(),
                pv == parsed@.map_values(|e: Extension| e@),
                forall|j: int| 0 <= j < i ==> offered_name(req.extensions, #[trigger] pv[j].name),
                offered_all@.map_values(|e: Extension| e@) == all_extensions(req.extensions),
                k < es.len(),
                es == strings_view(response.extensions@),
                es[k as int] == ext@,
                spec_strict_error(spec_split(es[k as int], ','), 0) is None,
                pv == spec_parse_extensions(es[k as int]),
                pv.len() > 0,
                req == request@,
                resp == response@,
                response_extension_problem(es, req.extensions, 0) == response_extension_problem(es, req.extensions, k as int),
                !(resp.protocol is Some && !req.protocols.contains(resp.protocol->0)),
            decreases parsed@.len() - i,
        {
            let found = name_offered(&offered_all, parsed[i].name.as_str());
            proof {
                assert(pv[i as int] == parsed@[i as int]@);
                let av = offered_all@.map_values(|e: Extension| e@);
                if found {
                    let w = choose|w: int| 0 <= w < offered_all@.len() && #[trigger] offered_all@[w]@.name == parsed@[i as int]@.name;
                    assert(av[w] == offered_all@[w]@);
                    assert(offered_name(req.extensions, pv[i as int].name));
                } else {
                    assert forall|w: int| 0 <= w < all_extensions(req.extensions).len() implies #[trigger] all_extensions(req.extensions)[w].name != pv[i as int].name by {
                        assert(av[w] == offered_all@[w]@);
                    }
                }
            }
            if !found {
                return Err(Error::with_reason(ErrorKind::HandshakeRejected, concat_str("unsupported extension: ", ext)));
            }
            i = i + 1;
        }
        k = k + 1;
    }
    let resp_all = parse_all(&response.extensions);
    let ghost rv = resp_all@.map_values(|e: Extension| e@);
    let mut count: usize = 0;
    let mut i: usize = 0;
    while i < resp_all.len()
        invariant
            i <= resp_all@.len(),
            rv == resp_all@.map_values(|e: Extension| e@),
            count == pmd_entries(rv.take(i as int)).len(),
            count <= i,
        decreases resp_all@.len() - i,
    {
        proof {
            assert(rv.take(i + 1).drop_last() =~= rv.take(i as int));
            assert(rv.take(i + 1).last() == rv[i as int]);
            assert(rv[i as int] == resp_all@[i as int]@);
        }
        if str_eq(resp_all[i].name.as_str(), "permessage-deflate") {
            count = count + 1;
        }
        i = i + 1;
    }
    proof {
        assert(rv.take(resp_all@.len() as int) =~= rv);
    }
    if count > 1 {
        return Err(
            Error::with_text(ErrorKind::HandshakeRejected, "response contains multiple permessage-deflate elements"),
        );
    }
    let ghost hs = resp.additional_headers;
    let ghost expected = match first_reserved(hs, 0) {
        Some(n) => Some(
            RequestRefusal {
                kind: ErrorKind::InvalidInput,
                reason: "additional header '"@ + n + "' conflicts with a reserved WebSocket header"@,
            },
        ),
        None => None,
    };
    assert(spec_check_server_response(req, resp) == expected);
    let mut j: usize = 0;
    while j < response.additional_headers.len()
        invariant
            j <= response.additional_headers@.len(),
            hs == headers_view(response.additional_headers@),
            first_reserved(hs, 0) == first_reserved(hs, j as int),
            spec_check_server_response(request@, response@) == expected,
            expected == match first_reserved(hs, 0) {
                Some(n) => Some(
                    RequestRefusal {
                        kind: ErrorKind::InvalidInput,
                        reason: "additional header '"@ + n + "' conflicts with a reserved WebSocket header"@,
                    },
                ),
                None => None,
            },
        decreases response.additional_headers@.len() - j,
    {
        proof {
            assert(hs[j as int] == (response.additional_headers@[j as int].0@, response.additional_headers@[j as int].1@));
        }
        let name = response.additional_headers[j].0.as_str();
        if reserved_name(name) {
            let a = concat_str("additional header '", name);
            return Err(
                Error::with_reason(
                    ErrorKind::InvalidInput,
                    concat_str(a.as_str(), "' conflicts with a reserved WebSocket header"),
                ),
            );
        }
        j = j + 1;
    }
    Ok(())
}

proof fn lemma_first_param_at(ps: Seq<ParamSpec>, name: Seq<char>, i: int, k: int)
    requires
        0 <= k <= i < ps.len(),
        ps[i].name == name,
        forall|j: int| 0 <= j < i ==> ps[j].name != name,
    ensures
        first_param(ps, name, k) == Some(ps[i]),
    decreases i - k,
{
    if k < i {
        lemma_first_param_at(ps, name, i, k + 1);
    }
}

proof fn lemma_first_param_none(ps: Seq<ParamSpec>, name: Seq<char>, k: int)
    requires
        0 <= k <= ps.len(),
        forall|j: int| 0 <= j < ps.len() ==> ps[j].name != name,
    ensures
        first_param(ps, name, k) is None,
    decreases ps.len() - k,
{
    if k < ps.len() {
        lemma_first_param_none(ps, name, k + 1);
    }
}

/// The server window size an offer asks for.
fn offered_smwb(e: &Extension) -> (r: Option<u8>)
    ensures
        r == offered_smwb_of(e@),
{
    let p = e.get_param("server_max_window_bits");
    proof {
        match p {
            Some(q) => {
                let i = choose|i: int| 0 <= i < e@.params.len() && q@ == #[trigger] e@.params[i] && q@.name
                    == smwb_name() && forall|j: int| 0 <= j < i ==> e@.params[j].name != smwb_name();
                lemma_first_param_at(e@.params, smwb_name(), i, 0);
            },
            None => {
                lemma_first_param_none(e@.params, smwb_name(), 0);
            },
        }
    }
    match p {
        Some(q) => match &q.value {
            Some(v) => {
                let cs = str_chars(v.as_str());
                crate::text::parse_u8(cs.as_slice())
            },
            None => None,
        },
        None => None,
    }
}

/// The content of each extension.
pub open spec fn exts_view(v: Seq<Extension>) -> Seq<ExtSpec> {
    v.map_values(|e: Extension| e@)
}

fn first_smwb(all: &Vec<Extension>) -> (r: Option<u8>)
    ensures
        r == first_offered_smwb(all@.map_values(|e: Extension| e@), 0),
{
    let ghost ov = all@.map_values(|e: Extension| e@);
    let mut i: usize = 0;
    while i < all.len()
        invariant
            i <= all@.len(),
            ov == all@.map_values(|e: Extension| e@),
            first_offered_smwb(ov, 0) == first_offered_smwb(ov, i as int),
        decreases all@.len() - i,
    {
        proof {
            assert(ov[i as int] == all@[i as int]@);
        }
        if str_eq(all[i].name.as_str(), "permessage-deflate") {
            let v = offered_smwb(&all[i]);
            if v.is_some() {
                return v;
            }
        }
        i = i + 1;
    }
    None
}

fn any_cmwb(all: &Vec<Extension>) -> (r: bool)
    ensures
        r == (exists|m: int| 0 <= m < all@.len() && #[trigger] exts_view(all@)[m].name == pmd_name()
            && has_param(exts_view(all@)[m], cmwb_name())),
{
    let ghost ov = all@.map_values(|e: Extension| e@);
    let mut j: usize = 0;
    while j < all.len()
        invariant
            j <= all@.len(),
            ov == all@.map_values(|e: Extension| e@),
            forall|m: int| 0 <= m < j ==> !(#[trigger] ov[m].name == pmd_name() && has_param(ov[m], cmwb_name())),
        decreases all@.len() - j,
    {
        proof {
            assert(ov[j as int] == all@[j as int]@);
        }
        if str_eq(all[j].name.as_str(), "permessage-deflate") {
            let q = all[j].get_param("client_max_window_bits");
            proof {
                if q is None {
                    assert forall|w: int| 0 <= w < ov[j as int].params.len() implies #[trigger] ov[j as int].params[w].name != cmwb_name() by {
                        assert(ov[j as int].params[w].name != "client_max_window_bits"@);
                    }
                } else {
                    let w = choose|w: int| 0 <= w < all@[j as int]@.params.len() && q->0@ == #[trigger] all@[j as int]@.params[w] && q->0@.name == "client_max_window_bits"@
                        && forall|x: int| 0 <= x < w ==> all@[j as int]@.params[x].name != "client_max_window_bits"@;
                    assert(ov[j as int].params[w].name == cmwb_name());
                    assert(ov == exts_view(all@));
                    assert(exts_view(all@)[j as int].name == pmd_name() && has_param(exts_view(all@)[j as int], cmwb_name()));
                }
            }
            if q.is_some() {
                return true;
            }
        }
        j = j + 1;
    }
    false
}

/// Agrees on permessage-deflate from the response the server is about to
/// send, as [`deflate_agreement`] states, and builds the codec.
pub fn negotiate_deflate(request: &ServerHandshakeRequest, response: &ServerHandshakeResponse) -> (r: Result<Option<PerMessageDeflate>, Error>)
    ensures
        match deflate_agreement(all_extensions(response@.extensions), request@.extensions, 0, None) {
            Ok(d) => r matches Ok(o) && match o {
                Some(pd) => d == Some(pd.spec_config()) && pd.spec_resets() == (
                    pd.spec_config().server_no_context_takeover,
                    pd.spec_config().client_no_context_takeover,
                ) && pd.spec_codec() == crate::deflate::fresh_codec(
                    pd.spec_config().server_no_context_takeover,
                    pd.spec_config().client_no_context_takeover,
                ),
                None => d is None,
            },
            Err(m) => r matches Err(e) && e.kind == ErrorKind::HandshakeRejected && e.reason@ == m,
        },
{
    let ghost req = request@;
    let offered_all = parse_all(&request.extensions);
    let ghost ov = offered_all@.map_values(|e: Extension| e@);
    let client_smwb = first_smwb(&offered_all);
    let client_cmwb = any_cmwb(&offered_all);
    proof {
        assert(exts_view(offered_all@) == all_extensions(req.extensions));
        if client_cmwb {
            let m = choose|m: int| 0 <= m < offered_all@.len() && #[trigger] exts_view(offered_all@)[m].name == pmd_name()
                && has_param(exts_view(offered_all@)[m], cmwb_name());
            assert(all_extensions(req.extensions)[m].name == pmd_name());
        } else {
            assert forall|m: int| 0 <= m < all_extensions(req.extensions).len() implies !(#[trigger] all_extensions(req.extensions)[m].name == pmd_name()
                && has_param(all_extensions(req.extensions)[m], cmwb_name())) by {
                assert(exts_view(offered_all@)[m] == all_extensions(req.extensions)[m]);
            }
        }
    }
    let resp_all = parse_all(&response.extensions);
    let ghost rv = resp_all@.map_values(|e: Extension| e@);
    let mut deflate: Option<PerMessageDeflate> = None;
    let ghost mut acc: Option<PerMessageDeflateConfig> = None;
    let mut k: usize = 0;
    while k < resp_all.len()
        invariant
            k <= resp_all@.len(),
            rv == resp_all@.map_values(|e: Extension| e@),
            rv == all_extensions(response@.extensions),
            req == request@,
            client_smwb == first_offered_smwb(all_extensions(req.extensions), 0),
            client_cmwb == offered_cmwb(req.extensions),
            deflate_agreement(rv, req.extensions, 0, None) == deflate_agreement(rv, req.extensions, k as int, acc),
            match deflate {
                Some(pd) => acc == Some(pd.spec_config()) && pd.spec_resets() == (
                    pd.spec_config().server_no_context_takeover,
                    pd.spec_config().client_no_context_takeover,
                ) && pd.spec_codec() == crate::deflate::fresh_codec(
                    pd.spec_config().server_no_context_takeover,
                    pd.spec_config().client_no_context_takeover,
                ),
                None => acc is None,
            },
        decreases resp_all@.len() - k,
    {
        let ext = &resp_all[k];
        proof {
            assert(rv[k as int] == ext@);
        }
        if str_eq(ext.name.as_str(), "permessage-deflate") {
            let config = match PerMessageDeflateConfig::from_extension_for_client_response(ext) {
                Ok(c) => c,
                Err(e) => {
                    let text = e.to_string();
                    return Err(
                        Error::with_reason(
                            ErrorKind::HandshakeRejected,
                            concat_str("invalid permessage-deflate parameters: ", text.as_str()),
                        ),
                    );
                },
            };
            if let Some(bits) = config.server_max_window_bits {
                if bits < 15 {
                    let a = concat_str("server_max_window_bits=", crate::text::u8_to_decimal(bits).as_str());
                    return Err(
                        Error::with_reason(
                            ErrorKind::HandshakeRejected,
                            concat_str(a.as_str(), " is not supported (only 15 is supported)"),
                        ),
                    );
                }
            }
            if let (Some(bits), Some(offered)) = (config.server_max_window_bits, client_smwb) {
                if bits > offered {
                    let a = concat_str("server_max_window_bits=", crate::text::u8_to_decimal(bits).as_str());
                    let b = concat_str(a.as_str(), " exceeds client offer=");
                    return Err(
                        Error::with_reason(
                            ErrorKind::HandshakeRejected,
                            concat_str(b.as_str(), crate::text::u8_to_decimal(offered).as_str()),
                        ),
                    );
                }
            }
            let included = ext.get_param("client_max_window_bits").is_some();
            proof {
                if has_param(ext@, cmwb_name()) {
                    let w = choose|w: int| 0 <= w < ext@.params.len() && #[trigger] ext@.params[w].name == cmwb_name();
                    assert(ext@.params[w].name == "client_max_window_bits"@);
                }
            }
            if included && !client_cmwb {
                return Err(
                    Error::with_text(ErrorKind::HandshakeRejected, "client_max_window_bits included without client offer"),
                );
            }
            deflate = Some(PerMessageDeflate::new_server(config));
            proof {
                acc = Some(config);
            }
        }
        k = k + 1;
    }
    Ok(deflate)
}

/// The first offered subprotocol the server supports.
pub fn select_protocol(request: &ServerHandshakeRequest, supported: &Vec<String>) -> (r: Option<String>)
    ensures
        opt_string_view(r) == spec_select_protocol(request@.protocols, strings_view(supported@), 0),
{
    let ghost offered = request@.protocols;
    let mut i: usize = 0;
    while i < request.protocols.len()
        invariant
            i <= request.protocols@.len(),
            offered == strings_view(request.protocols@),
            spec_select_protocol(offered, strings_view(supported@), 0) == spec_select_protocol(
                offered,
                strings_view(supported@),
                i as int,
            ),
        decreases request.protocols@.len() - i,
    {
        proof {
            assert(offered[i as int] == request.protocols@[i as int]@);
        }
        if contains_str(supported, request.protocols[i].as_str()) {
            return Some(string_from_str(request.protocols[i].as_str()));
        }
        i = i + 1;
    }
    None
}

/// The configuration for the first acceptable permessage-deflate offer,
/// when the server is configured for permessage-deflate.
pub fn select_deflate(request: &ServerHandshakeRequest, server: Option<PerMessageDeflateConfig>) -> (r: Option<PerMessageDeflateConfig>)
    ensures
        r == match server {
            Some(sc) => spec_select_deflate(all_extensions(request@.extensions), sc, 0),
            None => None,
        },
{
    let server_config = match server {
        Some(c) => c,
        None => return None,
    };
    let all = parse_all(&request.extensions);
    let ghost av = all@.map_values(|e: Extension| e@);
    let mut i: usize = 0;
    while i < all.len()
        invariant
            i <= all@.len(),
            av == all@.map_values(|e: Extension| e@),
            av == all_extensions(request@.extensions),
            server == Some(server_config),
            spec_select_deflate(av, server_config, 0) == spec_select_deflate(av, server_config, i as int),
        decreases all@.len() - i,
    {
        proof {
            assert(av[i as int] == all@[i as int]@);
        }
        if str_eq(all[i].name.as_str(), "permessage-deflate") {
            match PerMessageDeflateConfig::from_extension_for_server_request(&all[i]) {
                Ok(cr) => {
                    let too_small = match cr.server_max_window_bits {
                        Some(v) => v < 15,
                        None => false,
                    };
                    if !too_small {
                        return Some(PerMessageDeflateConfig::negotiate(&cr, &server_config));
                    }
                },
                Err(_) => {},
            }
        }
        i = i + 1;
    }
    None
}

/// The header fields of the 101 response.
pub fn response_fields(request: &ServerHandshakeRequest, response: &ServerHandshakeResponse) -> (r: Vec<(String, String)>)
    ensures
        headers_view(r@) == spec_response_fields(request@, response@),
{
    let accept = crate::handshake::calculate_accept_from_key(request.key.as_str());
    let mut fields: Vec<(String, String)> = Vec::new();
    push_field(&mut fields, "Upgrade", "websocket");
    push_field(&mut fields, "Connection", "Upgrade");
    push_field(&mut fields, "Sec-WebSocket-Accept", accept.as_str());
    match &response.protocol {
        Some(p) => push_field(&mut fields, "Sec-WebSocket-Protocol", p.as_str()),
        None => {},
    }
    if response.extensions.len() > 0 {
        let joined = join_values(&response.extensions, ", ");
        push_field(&mut fields, "Sec-WebSocket-Extensions", joined.as_str());
    }
    let ghost base = headers_view(fields@);
    let ghost extra = headers_view(response.additional_headers@);
    let mut i: usize = 0;
    while i < response.additional_headers.len()
        invariant
            i <= response.additional_headers@.len(),
            extra == headers_view(response.additional_headers@),
            headers_view(fields@) == base + extra.take(i as int),
        decreases response.additional_headers@.len() - i,
    {
        push_field(&mut fields, response.additional_headers[i].0.as_str(), response.additional_headers[i].1.as_str());
        proof {
            assert(extra[i as int] == (response.additional_headers@[i as int].0@, response.additional_headers@[i as int].1@));
            assert(extra.take(i + 1) =~= extra.take(i as int).push(extra[i as int]));
        }
        i = i + 1;
    }
    proof {
        assert(extra.take(extra.len() as int) =~= extra);
        assert(headers_view(fields@) =~= spec_response_fields(request@, response@));
    }
    fields
}

/// The fields given as pairs of string slices, by their characters.
pub open spec fn str_fields_view(h: Seq<(&str, &str)>) -> Seq<(Seq<char>, Seq<char>)> {
    Seq::new(h.len(), |i: int| (h[i].0@, h[i].1@))
}

/// The text of an HTTP/1.1 response without a body: the status line, the
/// field lines of `fields` and an empty line.
pub open spec fn spec_response_message(status: u16, reason: Seq<char>, fields: Seq<(Seq<char>, Seq<char>)>) -> Seq<char> {
    "HTTP/1.1 "@ + decimal(status as nat) + " "@ + reason + "\r\n"@ + field_lines(fields) + "\r\n"@
}

/// The head of an HTTP/1.1 response: the status line and the field lines.
pub open spec fn spec_response_head(status: u16, reason: Seq<char>, fields: Seq<(Seq<char>, Seq<char>)>) -> Seq<char> {
    "HTTP/1.1 "@ + decimal(status as nat) + " "@ + reason + "\r\n"@ + field_lines(fields)
}

/// When a response can be encoded: the status is within 100..=599, the
/// reason phrase is not empty and acceptable, every field name is a token and
/// every value acceptable, and `shiguredo_http11` encodes the head.
pub open spec fn spec_response_accepts(status: u16, reason: Seq<char>, fields: Seq<(Seq<char>, Seq<char>)>) -> bool {
    &&& 100 <= status <= 599
    &&& reason.len() > 0
    &&& crate::request::is_field_value(reason)
    &&& forall|k: int| 0 <= k < fields.len() ==> #[trigger] crate::request::fields_accepted(fields, k)
    &&& crate::request::response_head_encodes(spec_response_head(status, reason, fields))
}

/// Encodes an HTTP/1.1 response with the given status and fields
/// ([`spec_response_message`]); it succeeds exactly when
/// [`spec_response_accepts`] holds, and a refusal is an
/// [`ErrorKind::InvalidInput`].
pub fn encode_response(status: u16, reason: &str, fields: &Vec<(String, String)>) -> (r: Result<Vec<u8>, Error>)
    ensures
        r is Ok <==> spec_response_accepts(status, reason@, headers_view(fields@)),
        r matches Ok(b) ==> b@ == vstd::utf8::encode_utf8(
            spec_response_message(status, reason@, headers_view(fields@)),
        ),
        r matches Err(e) ==> e.kind == ErrorKind::InvalidInput,
{
    let ghost fs = headers_view(fields@);
    let ghost start = "HTTP/1.1 "@ + decimal(status as nat) + " "@ + reason@ + "\r\n"@;
    let mut resp = match crate::request::http_response(status, reason) {
        Ok(r) => r,
        Err(m) => return Err(Error::with_reason(ErrorKind::InvalidInput, m)),
    };
    let mut i: usize = 0;
    while i < fields.len()
        invariant
            i <= fields@.len(),
            fs == headers_view(fields@),
            response_head(resp) == start + field_lines(fs.take(i as int)),
            !response_has_body(resp),
            100 <= status <= 599 && reason@.len() > 0 && crate::request::is_field_value(reason@),
            forall|k: int| 0 <= k < i ==> #[trigger] crate::request::fields_accepted(fs, k),
        decreases fields@.len() - i,
    {
        assert(fs[i as int] == (fields@[i as int].0@, fields@[i as int].1@));
        let name = match crate::request::http_header_name(fields[i].0.as_str()) {
            Ok(n) => n,
            Err(m) => {
                assert(!crate::request::fields_accepted(fs, i as int));
                return Err(Error::with_reason(ErrorKind::InvalidInput, m));
            },
        };
        resp = match crate::request::http_response_header(resp, name, fields[i].1.as_str()) {
            Ok(r) => r,
            Err(m) => {
                assert(!crate::request::fields_accepted(fs, i as int));
                return Err(Error::with_reason(ErrorKind::InvalidInput, m));
            },
        };
        proof {
            assert(crate::request::fields_accepted(fs, i as int));
            assert(fs.take(i + 1).drop_last() =~= fs.take(i as int));
            assert(fs.take(i + 1).last() == fs[i as int]);
        }
        i = i + 1;
    }
    assert(fs.take(fields@.len() as int) =~= fs);
    match crate::request::http_response_encode(&resp) {
        Ok(bytes) => Ok(bytes),
        Err(m) => Err(Error::with_reason(ErrorKind::InvalidInput, m)),
    }
}

// ---------------------------------------------------------------------------
// Options
// ---------------------------------------------------------------------------

/// The mathematical content of [`ServerConnectionOptions`].
pub struct ServerOptionsSpec {
    pub protocols: Seq<Seq<char>>,
    pub deflate_config: Option<PerMessageDeflateConfig>,
    pub additional_headers: Seq<(Seq<char>, Seq<char>)>,
    pub ping_interval_millis: u64,
    pub pong_timeout_millis: u64,
    pub close_timeout_millis: u64,
    pub max_frame_size: usize,
    pub max_message_size: usize,
    pub max_decompressed_size: usize,
}

/// What accepting the pending request with `resp` does: the request is
/// consumed; a response that the server's check refuses, that cannot be
/// encoded, or whose permessage-deflate elements do not agree with the
/// offers, fails and leaves the shared state as it was; otherwise, with no
/// buffered frame data, it succeeds. A success queues the 101 response,
/// reports the new state and the connection, takes the response's
/// subprotocol and extensions, switches to the agreed codec, and moves to
/// `Connected` (or on, if buffered frames follow), the queues only growing.
pub open spec fn accept_effect(
    before: WebSocketServerConnection,
    after: WebSocketServerConnection,
    resp: ServerResponseSpec,
    r: Result<(), Error>,
) -> bool {
    let req = before.pending_request()->0;
    let agreement = deflate_agreement(all_extensions(resp.extensions), req.extensions, 0, None);
    &&& after.pending_request() is None
    &&& (spec_check_server_response(req, resp) matches Some(f) ==> (r matches Err(e) && e.kind == f.kind
        && e.reason@ == f.reason && after.shared() == before.shared()))
    &&& (spec_check_server_response(req, resp) is None && !spec_response_accepts(
        101,
        "Switching Protocols"@,
        spec_response_fields(req, resp),
    ) ==> (r matches Err(e) && e.kind == ErrorKind::InvalidInput && after.shared() == before.shared()))
    &&& (spec_check_server_response(req, resp) is None && agreement is Err ==> r is Err && after.shared()
        == before.shared())
    &&& (spec_check_server_response(req, resp) is None && agreement is Ok && spec_response_accepts(
        101,
        "Switching Protocols"@,
        spec_response_fields(req, resp),
    ) && before.pending_frame_data().len() == 0 ==> r is Ok)
    &&& (r is Ok ==> {
        &&& spec_check_server_response(req, resp) is None
        &&& agreement is Ok
        &&& after.negotiated_protocol() == resp.protocol
        &&& after.negotiated_extensions() == resp.extensions
        &&& after.pending_frame_data().len() == 0
        &&& spec_can_transition(ConnectionState::Connected, after.shared().state)
        &&& crate::shared::queues_grow(before.shared(), after.shared())
        &&& after.shared().outputs.len() > before.shared().outputs.len()
        &&& after.shared().outputs[before.shared().outputs.len() as int] == OutputSpec::SendData(
            vstd::utf8::encode_utf8(
                spec_response_message(101, "Switching Protocols"@, spec_response_fields(req, resp)),
            ),
        )
        &&& after.shared().events.len() >= before.shared().events.len() + 2
        &&& after.shared().events[before.shared().events.len() as int] == EventSpec::StateChanged(
            ConnectionState::Connected,
        )
        &&& after.shared().events[before.shared().events.len() + 1int] == (EventSpec::Connected {
            protocol: resp.protocol,
            extensions: resp.extensions,
        })
        &&& after.shared().deflate == match agreement->Ok_0 {
            Some(c) => Some(c),
            None => before.shared().deflate,
        }
        &&& before.pending_frame_data().len() == 0 ==> after.shared().codec == match agreement->Ok_0 {
            Some(c) => crate::deflate::fresh_codec(c.server_no_context_takeover, c.client_no_context_takeover),
            None => before.shared().codec,
        }
    })
}

/// The response `accept_handshake_auto` gives: the first offered subprotocol
/// the server supports, the permessage-deflate element negotiated from the
/// first acceptable offer when the server has a configuration, and the extra
/// fields of the options.
pub open spec fn spec_auto_response(req: ServerRequestSpec, opts: ServerOptionsSpec) -> ServerResponseSpec {
    ServerResponseSpec {
        protocol: spec_select_protocol(req.protocols, opts.protocols, 0),
        extensions: match opts.deflate_config {
            Some(sc) => match spec_select_deflate(all_extensions(req.extensions), sc, 0) {
                Some(c) => seq![spec_encode_extension(ExtSpec { name: pmd_name(), params: spec_config_params(c) })],
                None => Seq::empty(),
            },
            None => Seq::empty(),
        },
        additional_headers: opts.additional_headers,
    }
}

/// The answer to a refused handshake request: 426 with
/// `Sec-WebSocket-Version: 13` for an unsupported version, 400 otherwise,
/// each with `Connection: close`.
pub open spec fn refusal_message(version: bool) -> Seq<u8> {
    vstd::utf8::encode_utf8(
        if version {
            spec_response_message(
                426,
                "Upgrade Required"@,
                seq![("Connection"@, "close"@), ("Sec-WebSocket-Version"@, "13"@)],
            )
        } else {
            spec_response_message(400, "Bad Request"@, seq![("Connection"@, "close"@)])
        },
    )
}

/// The answer a refused handshake gets (see `reject_handshake`): either the
/// answer could not be encoded and nothing changed, or the answer
/// ([`refusal_message`]) and a close of the transport are queued and the
/// connection is closed.
pub open spec fn refused(s: SharedView, t: SharedView, version: bool) -> bool {
    ||| t == s
    ||| {
        &&& t.outputs == s.outputs.push(OutputSpec::SendData(refusal_message(version))).push(
            OutputSpec::CloseConnection,
        )
        &&& t == (SharedView {
            state: ConnectionState::Closed,
            events: s.events.push(EventSpec::StateChanged(ConnectionState::Closed)),
            outputs: t.outputs,
            ..s
        })
    }
}

/// What reading `buf` while no request is pending does, from the shared
/// state `s` (already `Connecting`) to `t`, succeeding exactly when `ok`,
/// with request validator `v`: bytes the validator refuses, a malformed
/// head and a request the checks refuse are answered with a refusal; an
/// incomplete head waits; an accepted request becomes the pending request
/// (`req`) and the bytes after its head are kept (`data` after `old_data`).
/// Once the validator has given a head or an error, nothing is stated.
pub open spec fn request_read(
    v: crate::server_request::HandshakeRequestValidator,
    s: SharedView,
    buf: Seq<u8>,
    old_data: Seq<u8>,
    req: Option<ServerRequestSpec>,
    data: Seq<u8>,
    t: SharedView,
    ok: bool,
) -> bool {
    if v.decode_error() is Some {
        !ok && req is None && refused(s, t, false)
    } else if v.settled() {
        true
    } else if v.buffered().len() + buf.len() > v.buffer_limit() {
        !ok && req is None && refused(s, t, false)
    } else {
        let received = v.received() + buf;
        match crate::server_request::spec_http_request_parse(received) {
            None => !ok && req is None && refused(s, t, false),
            Some(None) => ok && req is None && t == s && data == old_data,
            Some(Some((h, n))) => match crate::server_request::spec_check_request(h) {
                Ok(q) => ok && req == Some(q) && t == s && data == old_data + received.skip(n as int),
                Err(f) => !ok && req is None && refused(s, t, f.kind == ErrorKind::VersionNotSupported),
            },
        }
    }
}

/// Server connection options.
#[derive(Debug, Clone)]
pub struct ServerConnectionOptions {
    /// Supported subprotocols.
    pub protocols: Vec<String>,
    /// permessage-deflate settings.
    pub deflate_config: Option<PerMessageDeflateConfig>,
    /// More response header fields.
    pub additional_headers: Vec<(String, String)>,
    /// Ping interval in milliseconds (0 turns pings off).
    pub ping_interval_millis: u64,
    /// Pong timeout in milliseconds.
    pub pong_timeout_millis: u64,
    /// Close timeout in milliseconds.
    pub close_timeout_millis: u64,
    /// Largest frame payload accepted.
    pub max_frame_size: usize,
    /// Largest message accepted (fragments together).
    pub max_message_size: usize,
    /// Largest decompressed message accepted.
    pub max_decompressed_size: usize,
}

impl View for ServerConnectionOptions {
    type V = ServerOptionsSpec;

    open spec fn view(&self) -> ServerOptionsSpec {
        ServerOptionsSpec {
            protocols: strings_view(self.protocols@),
            deflate_config: self.deflate_config,
            additional_headers: headers_view(self.additional_headers@),
            ping_interval_millis: self.ping_interval_millis,
            pong_timeout_millis: self.pong_timeout_millis,
            close_timeout_millis: self.close_timeout_millis,
            max_frame_size: self.max_frame_size,
            max_message_size: self.max_message_size,
            max_decompressed_size: self.max_decompressed_size,
        }
    }
}

/// The default server options: no subprotocol, extension or extra field;
/// pings every 30 s, a 10 s pong timeout, a 5 s close timeout, and the
/// default limits.
pub open spec fn default_server_options() -> ServerOptionsSpec {
    ServerOptionsSpec {
        protocols: Seq::empty(),
        deflate_config: None,
        additional_headers: Seq::empty(),
        ping_interval_millis: 30000,
        pong_timeout_millis: 10000,
        close_timeout_millis: 5000,
        max_frame_size: DEFAULT_MAX_FRAME_SIZE,
        max_message_size: DEFAULT_MAX_MESSAGE_SIZE,
        max_decompressed_size: DEFAULT_MAX_DECOMPRESSED_SIZE,
    }
}

impl Default for ServerConnectionOptions {
    fn default() -> (r: ServerConnectionOptions)
        ensures
            r@ == default_server_options(),
    {
        let r = ServerConnectionOptions {
            protocols: Vec::new(),
            deflate_config: None,
            additional_headers: Vec::new(),
            ping_interval_millis: 30000,
            pong_timeout_millis: 10000,
            close_timeout_millis: 5000,
            max_frame_size: DEFAULT_MAX_FRAME_SIZE,
            max_message_size: DEFAULT_MAX_MESSAGE_SIZE,
            max_decompressed_size: DEFAULT_MAX_DECOMPRESSED_SIZE,
        };
        assert(r@.protocols =~= Seq::<Seq<char>>::empty());
        assert(r@.additional_headers =~= Seq::<(Seq<char>, Seq<char>)>::empty());
        r
    }
}

impl ServerConnectionOptions {
    /// The default options.
    pub fn new() -> (r: ServerConnectionOptions)
        ensures
            r@ == default_server_options(),
    {
        ServerConnectionOptions::default()
    }

    /// Supports one more subprotocol.
    pub fn protocol(self, protocol: &str) -> (r: ServerConnectionOptions)
        ensures
            r@ == (ServerOptionsSpec { protocols: self@.protocols.push(protocol@), ..self@ }),
    {
        let mut protocols = self.protocols;
        let p = string_from_str(protocol);
        proof {
            assert(strings_view(protocols@.push(p)) =~= strings_view(protocols@).push(p@));
        }
        protocols.push(p);
        ServerConnectionOptions { protocols, ..self }
    }

    /// Turns permessage-deflate on with `config`.
    pub fn deflate(self, config: PerMessageDeflateConfig) -> (r: ServerConnectionOptions)
        ensures
            r@ == (ServerOptionsSpec { deflate_config: Some(config), ..self@ }),
    {
        ServerConnectionOptions { deflate_config: Some(config), ..self }
    }

    /// Adds a response header field.
    pub fn header(self, name: &str, value: &str) -> (r: ServerConnectionOptions)
        ensures
            r@ == (ServerOptionsSpec {
                additional_headers: self@.additional_headers.push((name@, value@)),
                ..self@
            }),
    {
        let mut headers = self.additional_headers;
        push_field(&mut headers, name, value);
        ServerConnectionOptions { additional_headers: headers, ..self }
    }

    /// Sets the ping interval.
    pub fn ping_interval(self, millis: u64) -> (r: ServerConnectionOptions)
        ensures
            r@ == (ServerOptionsSpec { ping_interval_millis: millis, ..self@ }),
    {
        ServerConnectionOptions { ping_interval_millis: millis, ..self }
    }

    /// Sets the largest frame payload accepted.
    pub fn max_frame_size(self, size: usize) -> (r: ServerConnectionOptions)
        ensures
            r@ == (ServerOptionsSpec { max_frame_size: size, ..self@ }),
    {
        ServerConnectionOptions { max_frame_size: size, ..self }
    }

    /// Sets the largest message accepted.
    pub fn max_message_size(self, size: usize) -> (r: ServerConnectionOptions)
        ensures
            r@ == (ServerOptionsSpec { max_message_size: size, ..self@ }),
    {
        ServerConnectionOptions { max_message_size: size, ..self }
    }

    /// Sets the largest decompressed message accepted (zip bomb protection).
    pub fn max_decompressed_size(self, size: usize) -> (r: ServerConnectionOptions)
        ensures
            r@ == (ServerOptionsSpec { max_decompressed_size: size, ..self@ }),
    {
        ServerConnectionOptions { max_decompressed_size: size, ..self }
    }
}

// ---------------------------------------------------------------------------
// The connection
// ---------------------------------------------------------------------------

fn append_bytes(dst: &mut Vec<u8>, src: &[u8])
    ensures
        final(dst)@ == old(dst)@ + src@,
{
    let ghost start = dst@;
    let mut i: usize = 0;
    while i < src.len()
        invariant
            i <= src@.len(),
            dst@ == start + src@.take(i as int),
        decreases src@.len() - i,
    {
        dst.push(src[i]);
        i = i + 1;
        assert(dst@ =~= start + src@.take(i as int));
    }
    assert(src@.take(src@.len() as int) =~= src@);
}

/// A server connection: the caller feeds received bytes and timer expiries,
/// decides on the handshake, and polls events and outputs.
pub struct WebSocketServerConnection {
    shared: SharedConnectionState,
    policy: ServerFramePolicy,
    options: ServerConnectionOptions,
    handshake_validator: crate::server_request::HandshakeRequestValidator,
    pending_request: Option<ServerHandshakeRequest>,
    pending_frame_data: Vec<u8>,
    negotiated_protocol: Option<String>,
    negotiated_extensions: Vec<String>,
}

impl WebSocketServerConnection {
    /// The shared connection state.
    pub closed spec fn shared(&self) -> SharedView {
        self.shared@
    }

    /// The options.
    pub closed spec fn options(&self) -> ServerOptionsSpec {
        self.options@
    }

    /// The received request waiting to be accepted or rejected.
    pub closed spec fn pending_request(&self) -> Option<ServerRequestSpec> {
        match self.pending_request {
            Some(q) => Some(q@),
            None => None,
        }
    }

    /// Bytes received after the request, kept until it is accepted.
    pub closed spec fn pending_frame_data(&self) -> Seq<u8> {
        self.pending_frame_data@
    }

    /// The validator of handshake requests.
    pub closed spec fn validator(&self) -> crate::server_request::HandshakeRequestValidator {
        self.handshake_validator
    }

    /// The negotiated subprotocol.
    pub closed spec fn negotiated_protocol(&self) -> Option<Seq<char>> {
        opt_string_view(self.negotiated_protocol)
    }

    /// The negotiated extension elements.
    pub closed spec fn negotiated_extensions(&self) -> Seq<Seq<char>> {
        strings_view(self.negotiated_extensions@)
    }

    /// A disconnected server connection with the given options.
    pub fn new(options: ServerConnectionOptions) -> (r: WebSocketServerConnection)
        ensures
            r.options() == options@,
            r.shared().state == ConnectionState::Disconnected,
            !r.shared().failed,
            r.shared().events.len() == 0,
            r.shared().outputs.len() == 0,
            r.shared().deflate is None,
            r.shared().max_frame_size == options@.max_frame_size,
            r.shared().max_message_size == options@.max_message_size,
            r.shared().max_decompressed_size == options@.max_decompressed_size,
            r.shared().ping_interval_millis == options@.ping_interval_millis,
            r.shared().pong_timeout_millis == options@.pong_timeout_millis,
            r.shared().close_timeout_millis == options@.close_timeout_millis,
            r.pending_request() is None,
            r.pending_frame_data().len() == 0,
            r.negotiated_protocol() is None,
            r.negotiated_extensions().len() == 0,
    {
        let shared = SharedConnectionState::new(
            options.max_frame_size,
            options.max_message_size,
            options.max_decompressed_size,
            options.ping_interval_millis,
            options.pong_timeout_millis,
            options.close_timeout_millis,
        );
        WebSocketServerConnection {
            shared,
            policy: ServerFramePolicy,
            options,
            handshake_validator: crate::server_request::HandshakeRequestValidator::new(),
            pending_request: None,
            pending_frame_data: Vec::new(),
            negotiated_protocol: None,
            negotiated_extensions: Vec::new(),
        }
    }

    /// The current state.
    pub fn state(&self) -> (r: ConnectionState)
        ensures
            r == self.shared().state,
    {
        self.shared.state()
    }

    /// The negotiated subprotocol.
    pub fn protocol(&self) -> (r: Option<&str>)
        ensures
            match r {
                Some(p) => self.negotiated_protocol() == Some(p@),
                None => self.negotiated_protocol() is None,
            },
    {
        match &self.negotiated_protocol {
            Some(p) => Some(p.as_str()),
            None => None,
        }
    }

    /// The negotiated extension elements.
    pub fn extensions(&self) -> (r: &[String])
        ensures
            strings_view(r@) == self.negotiated_extensions(),
    {
        self.negotiated_extensions.as_slice()
    }

    /// The received request waiting to be accepted or rejected, for the
    /// caller to check its origin and path.
    pub fn handshake_request(&self) -> (r: Option<&ServerHandshakeRequest>)
        ensures
            match r {
                Some(q) => self.pending_request() == Some(q@),
                None => self.pending_request() is None,
            },
    {
        match &self.pending_request {
            Some(q) => Some(q),
            None => None,
        }
    }

    /// Rejects the handshake with an HTTP response (`Connection: close` and
    /// the given fields; a version mismatch should send
    /// `Sec-WebSocket-Version: 13`, RFC 6455 Section 4.4) and closes.
    pub fn reject_handshake(&mut self, status_code: u16, reason: &str, headers: &[(&str, &str)]) -> (r: Result<(), Error>)
        ensures
            final(self).options() == old(self).options(),
            old(self).shared().state != ConnectionState::Connecting ==> (r matches Err(e) && e.kind
                == ErrorKind::InvalidState && e.reason@ == "handshake is not in progress"@ && final(self).shared()
                == old(self).shared() && final(self).pending_request() == old(self).pending_request()),
            old(self).shared().state == ConnectionState::Connecting ==> {
                &&& final(self).pending_request() is None
                &&& final(self).pending_frame_data().len() == 0
                &&& r is Ok <==> spec_response_accepts(
                    status_code,
                    reason@,
                    seq![("Connection"@, "close"@)] + str_fields_view(headers@),
                )
                &&& r matches Err(e) ==> e.kind == ErrorKind::InvalidInput && final(self).shared() == old(self).shared()
                &&& r is Ok ==> {
                    &&& final(self).shared().outputs.len() == old(self).shared().outputs.len() + 2
                    &&& final(self).shared().outputs.take(old(self).shared().outputs.len() as int) == old(self).shared().outputs
                    &&& final(self).shared().outputs[old(self).shared().outputs.len() as int] == OutputSpec::SendData(
                        vstd::utf8::encode_utf8(
                            spec_response_message(
                                status_code,
                                reason@,
                                seq![("Connection"@, "close"@)] + str_fields_view(headers@),
                            ),
                        ),
                    )
                    &&& final(self).shared().outputs.last() == OutputSpec::CloseConnection
                    &&& final(self).shared() == (SharedView {
                        state: ConnectionState::Closed,
                        events: old(self).shared().events.push(EventSpec::StateChanged(ConnectionState::Closed)),
                        outputs: final(self).shared().outputs,
                        ..old(self).shared()
                    })
                }
            },
    {
        if self.shared.state() != ConnectionState::Connecting {
            return Err(Error::with_text(ErrorKind::InvalidState, "handshake is not in progress"));
        }
        self.pending_request = None;
        self.pending_frame_data.clear();
        self.handshake_validator.reset();
        let ghost extra = str_fields_view(headers@);
        let ghost first = seq![("Connection"@, "close"@)];
        let mut fields: Vec<(String, String)> = Vec::new();
        assert(headers_view(fields@) =~= Seq::<(Seq<char>, Seq<char>)>::empty());
        push_field(&mut fields, "Connection", "close");
        assert(headers_view(fields@) =~= first + extra.take(0));
        let mut i: usize = 0;
        while i < headers.len()
            invariant
                i <= headers@.len(),
                extra == str_fields_view(headers@),
                headers_view(fields@) == first + extra.take(i as int),
            decreases headers@.len() - i,
        {
            let (n, v) = headers[i];
            push_field(&mut fields, n, v);
            proof {
                assert(extra[i as int] == (n@, v@));
                assert(extra.take(i + 1) =~= extra.take(i as int).push(extra[i as int]));
                assert(first + extra.take(i + 1) =~= (first + extra.take(i as int)).push(extra[i as int]));
            }
            i = i + 1;
        }
        assert(extra.take(headers@.len() as int) =~= extra);
        let encoded = match encode_response(status_code, reason, &fields) {
            Ok(b) => b,
            Err(e) => return Err(e),
        };
        let ghost s0 = self.shared@;
        self.shared.enqueue_output(ConnectionOutput::SendData(encoded));
        let _ = self.shared.set_state(ConnectionState::Closed);
        self.shared.enqueue_output(ConnectionOutput::CloseConnection);
        proof {
            assert(self.shared@.outputs.take(s0.outputs.len() as int) =~= s0.outputs);
        }
        Ok(())
    }

    /// Accepts the pending request with `response`: the response is checked
    /// ([`spec_check_server_response`]), encoded, and permessage-deflate
    /// agreed ([`deflate_agreement`]) before anything is sent; then the 101
    /// response is queued, the connection established, and bytes that
    /// arrived after the request handled.
    pub fn accept_handshake(&mut self, response: ServerHandshakeResponse) -> (r: Result<(), Error>)
        ensures
            final(self).options() == old(self).options(),
            old(self).shared().state != ConnectionState::Connecting ==> (r matches Err(e) && e.kind
                == ErrorKind::InvalidState && e.reason@ == "handshake is not in progress"@ && final(self).shared()
                == old(self).shared() && final(self).pending_request() == old(self).pending_request()),
            old(self).shared().state == ConnectionState::Connecting && old(self).pending_request() is None ==> (
            r matches Err(e) && e.kind == ErrorKind::InvalidState && e.reason@ == "handshake request not available"@
                && final(self).shared() == old(self).shared()),
            old(self).shared().state == ConnectionState::Connecting && old(self).pending_request() is Some
                ==> accept_effect(*old(self), *final(self), response@, r),
    {
        if self.shared.state() != ConnectionState::Connecting {
            return Err(Error::with_text(ErrorKind::InvalidState, "handshake is not in progress"));
        }
        let request = match self.pending_request.take() {
            Some(q) => q,
            None => return Err(Error::with_text(ErrorKind::InvalidState, "handshake request not available")),
        };
        if let Err(e) = validate_handshake_response(&request, &response) {
            return Err(e);
        }
        let fields = response_fields(&request, &response);
        let encoded = match encode_response(101, "Switching Protocols", &fields) {
            Ok(b) => b,
            Err(e) => return Err(e),
        };
        let deflate = match negotiate_deflate(&request, &response) {
            Ok(d) => d,
            Err(e) => return Err(e),
        };
        let ghost s0 = self.shared@;
        self.shared.enqueue_output(ConnectionOutput::SendData(encoded));
        if let Some(d) = deflate {
            self.shared.enable_deflate(d);
        }
        self.negotiated_protocol = response.protocol;
        self.negotiated_extensions = response.extensions;
        let _ = self.shared.set_state(ConnectionState::Connected);
        self.shared.emit_event(
            ConnectionEvent::Connected {
                protocol: crate::client::copy_opt_string(&self.negotiated_protocol),
                extensions: crate::client::copy_strings(&self.negotiated_extensions),
            },
        );
        if self.options.ping_interval_millis > 0 {
            self.shared.enqueue_output(
                ConnectionOutput::SetTimer { id: TimerId::Ping, duration_millis: self.options.ping_interval_millis },
            );
        }
        let ghost s1 = self.shared@;
        proof {
            assert(s1.events.take(s0.events.len() as int) =~= s0.events);
            assert(s1.outputs.take(s0.outputs.len() as int) =~= s0.outputs);
            assert(s1.outputs[s0.outputs.len() as int] == OutputSpec::SendData(encoded@));
            assert(s1.events[s0.events.len() as int] == EventSpec::StateChanged(ConnectionState::Connected));
        }
        if self.pending_frame_data.len() > 0 {
            let mut pending: Vec<u8> = Vec::new();
            std::mem::swap(&mut pending, &mut self.pending_frame_data);
            let r = self.shared.process_frames(pending.as_slice(), &mut self.policy);
            proof {
                crate::shared::lemma_queues_grow_trans(s0, s1, self.shared@);
                assert(self.shared@.outputs.take(s1.outputs.len() as int)[s0.outputs.len() as int]
                    == s1.outputs[s0.outputs.len() as int]);
                assert(self.shared@.events.take(s1.events.len() as int)[s0.events.len() as int]
                    == s1.events[s0.events.len() as int]);
                assert(self.shared@.events.take(s1.events.len() as int)[s0.events.len() + 1int]
                    == s1.events[s0.events.len() + 1int]);
            }
            if r.is_err() {
                return r;
            }
        }
        self.handshake_validator.reset();
        Ok(())
    }

    /// Accepts the pending request with the first offered subprotocol the
    /// server supports, the permessage-deflate agreement from the first
    /// acceptable offer, and the configured extra fields.
    ///
    /// The request's origin and path are not checked; a server that serves
    /// browsers with cookie authentication should check them itself and call
    /// [`Self::accept_handshake`] (cross-site WebSocket hijacking).
    pub fn accept_handshake_auto(&mut self) -> (r: Result<(), Error>)
        ensures
            final(self).options() == old(self).options(),
            old(self).pending_request() is None ==> (r matches Err(e) && e.kind == ErrorKind::InvalidState
                && e.reason@ == "handshake request not available"@ && final(self).shared() == old(self).shared()),
            old(self).pending_request() is Some && old(self).shared().state != ConnectionState::Connecting ==> (
            r matches Err(e) && e.kind == ErrorKind::InvalidState && e.reason@ == "handshake is not in progress"@
                && final(self).shared() == old(self).shared()),
            old(self).pending_request() is Some && old(self).shared().state == ConnectionState::Connecting
                ==> accept_effect(
                *old(self),
                *final(self),
                spec_auto_response(old(self).pending_request()->0, old(self).options()),
                r,
            ),
    {
        let request = match &self.pending_request {
            Some(q) => q,
            None => return Err(Error::with_text(ErrorKind::InvalidState, "handshake request not available")),
        };
        let ghost target = spec_auto_response(request@, self.options@);
        let mut response = ServerHandshakeResponse::new();
        if let Some(p) = select_protocol(request, &self.options.protocols) {
            response = response.protocol(p.as_str());
        }
        if let Some(config) = select_deflate(request, self.options.deflate_config) {
            let offer = config.to_extension().encode();
            response = response.extension(offer.as_str());
            assert(response@.extensions =~= target.extensions);
        } else {
            assert(response@.extensions =~= target.extensions);
        }
        let ghost extras = self.options@.additional_headers;
        let mut i: usize = 0;
        while i < self.options.additional_headers.len()
            invariant
                i <= self.options.additional_headers@.len(),
                extras == headers_view(self.options.additional_headers@),
                response@.protocol == target.protocol,
                response@.extensions == target.extensions,
                response@.additional_headers == extras.take(i as int),
            decreases self.options.additional_headers@.len() - i,
        {
            response = response.header(
                self.options.additional_headers[i].0.as_str(),
                self.options.additional_headers[i].1.as_str(),
            );
            proof {
                assert(extras[i as int] == (self.options.additional_headers@[i as int].0@, self.options.additional_headers@[i as int].1@));
                assert(extras.take(i + 1) =~= extras.take(i as int).push(extras[i as int]));
            }
            i = i + 1;
        }
        assert(extras.take(extras.len() as int) =~= extras);
        assert(response@ == target);
        self.accept_handshake(response)
    }

    /// Answers a refused handshake request with [`refusal_message`] and
    /// closes.
    fn refuse_request(&mut self, version: bool) -> (r: Result<(), Error>)
        requires
            old(self).shared().state == ConnectionState::Connecting,
        ensures
            final(self).options() == old(self).options(),
            final(self).pending_request() is None,
            refused(old(self).shared(), final(self).shared(), version),
            r is Err ==> final(self).shared() == old(self).shared(),
    {
        let ghost s1 = self.shared@;
        let rejected = if version {
            let fields = [("Sec-WebSocket-Version", "13")];
            let slice = fields.as_slice();
            assert(str_fields_view(slice@) =~= seq![("Sec-WebSocket-Version"@, "13"@)]);
            self.reject_handshake(426, "Upgrade Required", slice)
        } else {
            let fields: [(&str, &str); 0] = [];
            let slice = fields.as_slice();
            assert(str_fields_view(slice@) =~= Seq::<(Seq<char>, Seq<char>)>::empty());
            self.reject_handshake(400, "Bad Request", slice)
        };
        proof {
            if rejected is Ok {
                assert(seq![("Connection"@, "close"@)] + seq![("Sec-WebSocket-Version"@, "13"@)]
                    =~= seq![("Connection"@, "close"@), ("Sec-WebSocket-Version"@, "13"@)]);
                assert(seq![("Connection"@, "close"@)] + Seq::<(Seq<char>, Seq<char>)>::empty()
                    =~= seq![("Connection"@, "close"@)]);
                assert(self.shared@.outputs =~= s1.outputs.push(
                    OutputSpec::SendData(refusal_message(version)),
                ).push(OutputSpec::CloseConnection));
            }
        }
        rejected
    }

    /// Feeds handshake bytes: once a request is pending, later bytes are kept
    /// (at most 1 MiB) for after the acceptance; otherwise the request is
    /// read, and a refused one is answered with 426 (wrong version, with
    /// `Sec-WebSocket-Version: 13`) or 400.
    fn process_handshake(&mut self, buf: &[u8]) -> (r: Result<(), Error>)
        requires
            old(self).shared().state == ConnectionState::Disconnected || old(self).shared().state
                == ConnectionState::Connecting,
        ensures
            final(self).options() == old(self).options(),
            old(self).pending_request() is Some ==> {
                &&& final(self).shared() == old(self).shared()
                &&& final(self).pending_request() == old(self).pending_request()
                &&& if old(self).pending_frame_data().len() + buf@.len() > MAX_PENDING_FRAME_DATA {
                    r matches Err(e) && e.kind == ErrorKind::ProtocolViolation && e.reason@
                        == "pending frame data exceeds limit while awaiting handshake acceptance"@
                        && final(self).pending_frame_data() == old(self).pending_frame_data()
                } else {
                    r is Ok && final(self).pending_frame_data() == old(self).pending_frame_data() + buf@
                }
            },
            crate::shared::queues_grow(old(self).shared(), final(self).shared()),
            final(self).shared().failed == old(self).shared().failed,
            final(self).shared().state == ConnectionState::Connecting || final(self).shared().state
                == ConnectionState::Closed || final(self).shared().state == old(self).shared().state,
            r is Ok ==> final(self).shared().state == ConnectionState::Connecting || final(self).shared()
                == old(self).shared(),
            old(self).pending_request() is None ==> request_read(
                old(self).validator(),
                crate::client::after_set_state(old(self).shared(), ConnectionState::Connecting),
                buf@,
                old(self).pending_frame_data(),
                final(self).pending_request(),
                final(self).pending_frame_data(),
                final(self).shared(),
                r is Ok,
            ),
    {
        proof {
            assert(self.shared@.events.take(self.shared@.events.len() as int) =~= self.shared@.events);
            assert(self.shared@.outputs.take(self.shared@.outputs.len() as int) =~= self.shared@.outputs);
        }
        if self.pending_request.is_some() {
            if self.pending_frame_data.len() > MAX_PENDING_FRAME_DATA || buf.len() > MAX_PENDING_FRAME_DATA
                - self.pending_frame_data.len() {
                return Err(
                    Error::with_text(
                        ErrorKind::ProtocolViolation,
                        "pending frame data exceeds limit while awaiting handshake acceptance",
                    ),
                );
            }
            append_bytes(&mut self.pending_frame_data, buf);
            return Ok(());
        }
        let ghost s0 = self.shared@;
        if self.shared.state() == ConnectionState::Disconnected {
            let _ = self.shared.set_state(ConnectionState::Connecting);
        }
        proof {
            assert(self.shared@.events.take(s0.events.len() as int) =~= s0.events);
            assert(self.shared@.outputs.take(s0.outputs.len() as int) =~= s0.outputs);
        }
        let ghost s1 = self.shared@;
        assert(s1 == crate::client::after_set_state(s0, ConnectionState::Connecting));
        self.handshake_validator.feed(buf);
        match self.handshake_validator.validate() {
            Ok(Some(request)) => {
                self.pending_request = Some(request);
                append_bytes(&mut self.pending_frame_data, self.handshake_validator.remaining());
                Ok(())
            },
            Ok(None) => Ok(()),
            Err(e) => {
                let version_error = match e.kind {
                    ErrorKind::VersionNotSupported => true,
                    _ => false,
                };
                let rejected = self.refuse_request(version_error);
                proof {
                    assert(self.shared@.events.take(s1.events.len() as int) =~= s1.events);
                    assert(self.shared@.outputs.take(s1.outputs.len() as int) =~= s1.outputs);
                    crate::shared::lemma_queues_grow_trans(s0, s1, self.shared@);
                }
                if let Err(re) = rejected {
                    return Err(re);
                }
                Err(e)
            },
        }
    }

    /// Feeds received bytes (RFC 6455 Section 7.1.7: once a call failed,
    /// every later call fails at once).
    pub fn feed_recv_buf(&mut self, buf: &[u8]) -> (r: Result<(), Error>)
        ensures
            final(self).options() == old(self).options(),
            old(self).shared().failed ==> (r matches Err(e) && e.kind == ErrorKind::InvalidState
                && e.reason@ == "connection has failed"@ && final(self).shared() == old(self).shared()),
            !old(self).shared().failed && old(self).shared().state == ConnectionState::Closed ==> (r matches Err(e)
                && e.kind == ErrorKind::InvalidState && e.reason@ == "connection is closed"@ && final(self).shared()
                == old(self).shared()),
            !old(self).shared().failed && r is Err && old(self).shared().state != ConnectionState::Closed
                ==> final(self).shared().failed,
            r is Ok ==> !final(self).shared().failed,
            crate::shared::queues_grow(old(self).shared(), final(self).shared()),
            state_rank(old(self).shared().state) <= state_rank(final(self).shared().state),
            (old(self).shared().state == ConnectionState::Connected || old(self).shared().state
                == ConnectionState::Closing) ==> spec_can_transition(old(self).shared().state, final(self).shared().state),
            (old(self).shared().state == ConnectionState::Connected || old(self).shared().state
                == ConnectionState::Closing) && r is Ok ==> crate::frame::spec_decode(final(self).shared().pending)
                == crate::frame::DecodeOutcome::Incomplete,
            !old(self).shared().failed && (old(self).shared().state == ConnectionState::Connected
                || old(self).shared().state == ConnectionState::Closing) ==> exists|t: SharedView|
                #[trigger] crate::shared::frames_processed(
                    crate::shared::with_input(old(self).shared(), buf@),
                    t,
                    false,
                    r is Ok,
                ) && final(self).shared() == (if r is Ok {
                    t
                } else {
                    SharedView { failed: true, ..t }
                }),
            !old(self).shared().failed && (old(self).shared().state == ConnectionState::Disconnected
                || old(self).shared().state == ConnectionState::Connecting) && old(self).pending_request() is None
                ==> exists|t: SharedView|
                #[trigger] request_read(
                    old(self).validator(),
                    crate::client::after_set_state(old(self).shared(), ConnectionState::Connecting),
                    buf@,
                    old(self).pending_frame_data(),
                    final(self).pending_request(),
                    final(self).pending_frame_data(),
                    t,
                    r is Ok,
                ) && final(self).shared() == (if r is Ok {
                    t
                } else {
                    SharedView { failed: true, ..t }
                }),
    {
        proof {
            assert(self.shared@.events.take(self.shared@.events.len() as int) =~= self.shared@.events);
            assert(self.shared@.outputs.take(self.shared@.outputs.len() as int) =~= self.shared@.outputs);
        }
        if self.shared.is_failed() {
            return Err(Error::with_text(ErrorKind::InvalidState, "connection has failed"));
        }
        let ghost s0 = self.shared@;
        let ghost v0 = self.validator();
        let ghost p0 = self.pending_request();
        let ghost d0 = self.pending_frame_data();
        let result = match self.shared.state() {
            ConnectionState::Disconnected | ConnectionState::Connecting => self.process_handshake(buf),
            ConnectionState::Connected | ConnectionState::Closing => self.shared.process_frames(buf, &mut self.policy),
            ConnectionState::Closed => {
                return Err(Error::with_text(ErrorKind::InvalidState, "connection is closed"));
            },
        };
        proof {
            crate::connection_types::lemma_transitions_move_forward(s0.state, self.shared@.state);
        }
        let ghost s1 = self.shared@;
        if result.is_err() {
            self.shared.mark_failed();
            proof {
                assert(self.shared@.events.take(s1.events.len() as int) =~= s1.events);
                assert(self.shared@.outputs.take(s1.outputs.len() as int) =~= s1.outputs);
                crate::shared::lemma_queues_grow_trans(s0, s1, self.shared@);
            }
        }
        proof {
            if s0.state == ConnectionState::Connected || s0.state == ConnectionState::Closing {
                let sp = crate::shared::with_input(s0, buf@);
                assert(crate::shared::frames_processed(sp, s1, false, result is Ok));
            }
            if (s0.state == ConnectionState::Disconnected || s0.state == ConnectionState::Connecting) && p0 is None {
                assert(request_read(v0, crate::client::after_set_state(s0, ConnectionState::Connecting), buf@, d0,
                    self.pending_request(), self.pending_frame_data(), s1, result is Ok));
            }
        }
        result
    }

    /// Sends a text message.
    pub fn send_text(&mut self, text: &str) -> (r: Result<(), Error>)
        ensures
            final(self).options() == old(self).options(),
            old(self).shared().state != ConnectionState::Connected ==> (r matches Err(e) && e.kind
                == ErrorKind::InvalidState && final(self).shared() == old(self).shared()),
            old(self).shared().state == ConnectionState::Connected ==> crate::shared::message_sent(
                old(self).shared(),
                final(self).shared(),
                crate::opcode::Opcode::Text,
                vstd::string::StringSliceAdditionalSpecFns::spec_bytes(text),
                false,
                r is Ok,
            ),
    {
        self.shared.send_text(text, &mut self.policy)
    }

    /// Sends a binary message.
    pub fn send_binary(&mut self, data: &[u8]) -> (r: Result<(), Error>)
        ensures
            final(self).options() == old(self).options(),
            old(self).shared().state != ConnectionState::Connected ==> (r matches Err(e) && e.kind
                == ErrorKind::InvalidState && final(self).shared() == old(self).shared()),
            old(self).shared().state == ConnectionState::Connected ==> crate::shared::message_sent(
                old(self).shared(),
                final(self).shared(),
                crate::opcode::Opcode::Binary,
                data@,
                false,
                r is Ok,
            ),
    {
        self.shared.send_binary(data, &mut self.policy)
    }

    /// Sends a ping (at most 125 bytes, RFC 6455 Section 5.5).
    pub fn send_ping(&mut self, data: &[u8]) -> (r: Result<(), Error>)
        ensures
            final(self).options() == old(self).options(),
            old(self).shared().state != ConnectionState::Connected ==> (r matches Err(e) && e.kind
                == ErrorKind::InvalidState && final(self).shared() == old(self).shared()),
            old(self).shared().state == ConnectionState::Connected ==> crate::shared::ping_sent(
                old(self).shared(),
                final(self).shared(),
                data@,
                false,
                r is Ok,
            ),
    {
        self.shared.send_ping(data, &mut self.policy)
    }

    /// Starts the closing handshake (see [`SharedConnectionState::close`]).
    pub fn close(&mut self, code: CloseCode, reason: &str) -> (r: Result<(), Error>)
        ensures
            final(self).options() == old(self).options(),
            r is Err ==> final(self).shared() == old(self).shared(),
            r is Ok <==> ((old(self).shared().state == ConnectionState::Connected || old(self).shared().state
                == ConnectionState::Closing) && crate::close::spec_close_code_sendable(code.0)
                && vstd::string::StringSliceAdditionalSpecFns::spec_bytes(reason).len() <= 123),
            r is Ok ==> crate::shared::close_post(
                old(self).shared(),
                final(self).shared(),
                code.0,
                vstd::string::StringSliceAdditionalSpecFns::spec_bytes(reason),
                false,
            ),
    {
        self.shared.close(code, reason, &mut self.policy)
    }

    /// Handles a timer expiry (see [`crate::shared::timer_handled`]).
    pub fn handle_timer(&mut self, timer_id: TimerId) -> (r: Result<(), Error>)
        ensures
            r is Ok,
            final(self).options() == old(self).options(),
            crate::shared::timer_handled(old(self).shared(), timer_id, final(self).shared(), false),
    {
        self.shared.handle_timer(timer_id, &mut self.policy)
    }

    /// The oldest event not yet polled.
    pub fn poll_event(&mut self) -> (r: Option<ConnectionEvent>)
        ensures
            final(self).options() == old(self).options(),
            old(self).shared().events.len() == 0 ==> r is None && final(self).shared() == old(self).shared(),
            old(self).shared().events.len() > 0 ==> (r matches Some(e) && e@ == old(self).shared().events[0]
                && final(self).shared() == (SharedView { events: old(self).shared().events.drop_first(), ..old(self).shared() })),
    {
        self.shared.poll_event()
    }

    /// The oldest output not yet polled.
    pub fn poll_output(&mut self) -> (r: Option<ConnectionOutput>)
        ensures
            final(self).options() == old(self).options(),
            old(self).shared().outputs.len() == 0 ==> r is None && final(self).shared() == old(self).shared(),
            old(self).shared().outputs.len() > 0 ==> (r matches Some(o) && o@ == old(self).shared().outputs[0]
                && final(self).shared() == (SharedView { outputs: old(self).shared().outputs.drop_first(), ..old(self).shared() })),
    {
        self.shared.poll_output()
    }
}

} // verus!
