//! What each side of the opening handshake makes of the fields the other
//! sends: a request a client builds passes the server's check, and a `101`
//! answer that passes the server's own check passes the client's, and the
//! client accepts the permessage-deflate configuration a server negotiates
//! from the client's offer. The first two are stated over header fields; the
//! HTTP framing around them is `shiguredo_http11`'s.

use vstd::prelude::*;

use crate::error::HeadSpec;
use crate::client::{check_deflate_answer, has_param};
use crate::extension::{
    cmwb_name, cnct_name, lemma_config_roundtrip, lemma_config_token_extension,
    lemma_encode_parse_roundtrip, spec_encode_extension, lemma_negotiate_within_offers, pmd_name, smwb_name,
    snct_name, spec_config_params, spec_negotiate, spec_parse_extension, spec_parse_extensions,
    spec_parse_list, spec_split, spec_strict_error, window_bits_ok, ExtSpec, ExtensionParseContext,
    PerMessageDeflateConfig,
};
use crate::handshake::{plain_split, plain_split_from, spec_accept_from_key, spec_valid_key};
use crate::request::{spec_request_fields, RequestSpec};
use crate::response::{
    extension_elements, first_strict_error, has_token, header_values, join, spec_check_response,
    trimmed_elements, value_has_token, HandshakeSpec, ServerResponseSpec,
};
use crate::server::{
    first_reserved, is_reserved_name, response_extension_problem, spec_check_server_response,
    spec_response_fields,
};
use crate::server_request::{spec_check_request, RequestHeadSpec, RequestRefusal, ServerRequestSpec};
use crate::text::{ci_eq, is_white, lower_code, trim, trim_end, trim_start};

verus! {

type Fields = Seq<(Seq<char>, Seq<char>)>;

proof fn lemma_header_values_append(a: Fields, b: Fields, name: Seq<char>)
    ensures
        header_values(a + b, name) == header_values(a, name) + header_values(b, name),
    decreases b.len(),
{
    if b.len() == 0 {
        assert(a + b =~= a);
        assert(header_values(a, name) + header_values(b, name) =~= header_values(a, name));
    } else {
        lemma_header_values_append(a, b.drop_last(), name);
        assert((a + b).drop_last() =~= a + b.drop_last());
        assert((a + b).last() == b.last());
        let ra = header_values(a, name);
        let rb = header_values(b.drop_last(), name);
        assert((ra + rb).push(b.last().1) =~= ra + rb.push(b.last().1));
    }
}

proof fn lemma_header_values_one(k: Seq<char>, v: Seq<char>, name: Seq<char>)
    ensures
        header_values(seq![(k, v)], name) == if ci_eq(k, name) {
            seq![v]
        } else {
            Seq::<Seq<char>>::empty()
        },
{
    let e = Seq::<(Seq<char>, Seq<char>)>::empty();
    assert(seq![(k, v)].drop_last() =~= e);
    assert(header_values(e, name) == Seq::<Seq<char>>::empty());
    assert(seq![(k, v)].last() == (k, v));
    assert(Seq::<Seq<char>>::empty().push(v) =~= seq![v]);
}

proof fn lemma_header_values_none(hs: Fields, name: Seq<char>)
    requires
        forall|i: int| 0 <= i < hs.len() ==> !ci_eq(#[trigger] hs[i].0, name),
    ensures
        header_values(hs, name) == Seq::<Seq<char>>::empty(),
    decreases hs.len(),
{
    if hs.len() > 0 {
        assert(!ci_eq(hs[hs.len() - 1].0, name));
        lemma_header_values_none(hs.drop_last(), name);
    }
}

proof fn lemma_ci_eq_trans(a: Seq<char>, b: Seq<char>, c: Seq<char>)
    requires
        ci_eq(a, b),
        ci_eq(b, c),
    ensures
        ci_eq(a, c),
{
    assert forall|i: int| 0 <= i < a.len() implies #[trigger] lower_code(a[i]) == lower_code(c[i]) by {
        assert(lower_code(a[i]) == lower_code(b[i]));
        assert(lower_code(b[i]) == lower_code(c[i]));
    }
}

proof fn lemma_no_reserved(hs: Fields, k: int)
    requires
        0 <= k <= hs.len(),
        first_reserved(hs, k) is None,
    ensures
        forall|i: int| k <= i < hs.len() ==> !is_reserved_name(#[trigger] hs[i].0),
    decreases hs.len() - k,
{
    if k < hs.len() {
        lemma_no_reserved(hs, k + 1);
    }
}

proof fn lemma_plain_split_none(s: Seq<char>, d: char, j: int, start: int)
    requires
        0 <= start <= j <= s.len(),
        forall|k: int| j <= k < s.len() ==> #[trigger] s[k] != d,
    ensures
        plain_split_from(s, d, j, start) == seq![s.subrange(start, s.len() as int)],
    decreases s.len() - j,
{
    if j < s.len() {
        lemma_plain_split_none(s, d, j + 1, start);
    }
}

proof fn lemma_plain_split_append(s: Seq<char>, t: Seq<char>, d: char, j: int, start: int)
    requires
        0 <= start <= j <= s.len(),
        forall|k: int| 0 <= k < t.len() ==> #[trigger] t[k] != d,
    ensures
        plain_split_from(s + seq![d] + t, d, j, start) == plain_split_from(s, d, j, start) + seq![t],
    decreases s.len() - j,
{
    let x = s + seq![d] + t;
    assert(x.subrange(start, j) =~= s.subrange(start, j));
    if j == s.len() {
        assert forall|k: int| j + 1 <= k < x.len() implies #[trigger] x[k] != d by {
            assert(x[k] == t[k - j - 1]);
        }
        lemma_plain_split_none(x, d, j + 1, j + 1);
        assert(x.subrange(j + 1, x.len() as int) =~= t);
        assert(x[j] == d);
    } else if s[j] == d {
        assert(x[j] == s[j]);
        lemma_plain_split_append(s, t, d, j + 1, j + 1);
        let a = seq![s.subrange(start, j)];
        let b = plain_split_from(s, d, j + 1, j + 1);
        assert(a + (b + seq![t]) =~= (a + b) + seq![t]);
    } else {
        assert(x[j] == s[j]);
        lemma_plain_split_append(s, t, d, j + 1, start);
    }
}

/// No element holds a comma.
pub open spec fn comma_free(es: Seq<Seq<char>>) -> bool {
    forall|i: int, k: int| 0 <= i < es.len() && 0 <= k < es[i].len() ==> #[trigger] es[i][k] != ','
}

/// The pieces that cutting `join(es, ", ")` at every comma gives: the first
/// element, then each further element behind a space.
spec fn joined_pieces(es: Seq<Seq<char>>) -> Seq<Seq<char>>
    decreases es.len(),
{
    if es.len() <= 1 {
        es
    } else {
        joined_pieces(es.drop_last()).push(seq![' '] + es.last())
    }
}

proof fn lemma_split_joined(es: Seq<Seq<char>>)
    requires
        es.len() >= 1,
        comma_free(es),
    ensures
        plain_split(join(es, ", "@), ',') == joined_pieces(es),
    decreases es.len(),
{
    if es.len() == 1 {
        assert forall|k: int| 0 <= k < es[0].len() implies #[trigger] es[0][k] != ',' by {
            assert(es[0][k] != ',');
        }
        lemma_plain_split_none(es[0], ',', 0, 0);
        assert(es[0].subrange(0, es[0].len() as int) =~= es[0]);
        assert(seq![es[0]] =~= es);
    } else {
        let dl = es.drop_last();
        assert(comma_free(dl)) by {
            assert forall|i: int, k: int| 0 <= i < dl.len() && 0 <= k < dl[i].len() implies #[trigger] dl[i][k] != ',' by {
                assert(dl[i] == es[i]);
                assert(es[i][k] != ',');
            }
        }
        lemma_split_joined(dl);
        let s = join(dl, ", "@);
        let t = seq![' '] + es.last();
        assert forall|k: int| 0 <= k < t.len() implies #[trigger] t[k] != ',' by {
            if k > 0 {
                assert(t[k] == es[es.len() - 1][k - 1]);
                assert(es[es.len() - 1][k - 1] != ',');
            }
        }
        lemma_plain_split_append(s, t, ',', 0, 0);
        reveal_strlit(", ");
        assert(join(es, ", "@) =~= s + seq![','] + t);
    }
}

proof fn lemma_trim_space_before(e: Seq<char>)
    ensures
        trim(seq![' '] + e) == trim(e),
{
    let x = seq![' '] + e;
    assert(is_white(' '));
    assert(x.drop_first() =~= e);
    assert(trim_start(x) == trim_start(e));
}

/// Trimming the pieces of `join(es, ", ")` gives back `es`, when every
/// element is non-empty and equal to its trim.
proof fn lemma_trim_joined(es: Seq<Seq<char>>)
    requires
        forall|i: int| 0 <= i < es.len() ==> #[trigger] trim(es[i]) == es[i] && es[i].len() > 0,
    ensures
        trimmed_elements(joined_pieces(es)) == es,
    decreases es.len(),
{
    if es.len() == 0 {
    } else if es.len() == 1 {
        assert(trim(es[0]) == es[0] && es[0].len() > 0);
        assert(es.drop_last() =~= Seq::<Seq<char>>::empty());
        assert(trimmed_elements(Seq::<Seq<char>>::empty()) == Seq::<Seq<char>>::empty());
        assert(Seq::<Seq<char>>::empty().push(es[0]) =~= es);
    } else {
        let dl = es.drop_last();
        assert forall|i: int| 0 <= i < dl.len() implies #[trigger] trim(dl[i]) == dl[i] && dl[i].len() > 0 by {
            assert(dl[i] == es[i]);
            assert(trim(es[i]) == es[i] && es[i].len() > 0);
        }
        lemma_trim_joined(dl);
        let n = es.len() - 1;
        let last = es[n];
        assert(0 <= n < es.len());
        assert(trim(es[n]) == es[n]);
        assert(es[n].len() > 0);
        lemma_trim_space_before(last);
        let jp = joined_pieces(es);
        assert(jp.drop_last() =~= joined_pieces(dl));
        assert(jp.last() == seq![' '] + last);
        assert(dl.push(last) =~= es);
    }
}

/// The elements a client reads from the single field `join(es, ", ")`.
proof fn lemma_elements_of_joined(es: Seq<Seq<char>>)
    requires
        es.len() >= 1,
        comma_free(es),
        forall|i: int| 0 <= i < es.len() ==> #[trigger] trim(es[i]) == es[i] && es[i].len() > 0,
    ensures
        extension_elements(seq![join(es, ", "@)]) == es,
{
    let v = join(es, ", "@);
    lemma_split_joined(es);
    lemma_trim_joined(es);
    assert(seq![v].drop_last() =~= Seq::<Seq<char>>::empty());
    assert(seq![v].last() == v);
    assert(extension_elements(Seq::<Seq<char>>::empty()) == Seq::<Seq<char>>::empty());
    assert(Seq::<Seq<char>>::empty() + es =~= es);
}

/// Each field name the library sets matches its lower-case spelling.
proof fn lemma_reserved_spellings()
    ensures
        ci_eq("Upgrade"@, "upgrade"@),
        ci_eq("Connection"@, "connection"@),
        ci_eq("Sec-WebSocket-Accept"@, "sec-websocket-accept"@),
        ci_eq("Sec-WebSocket-Protocol"@, "sec-websocket-protocol"@),
        ci_eq("Sec-WebSocket-Extensions"@, "sec-websocket-extensions"@),
{
    reveal_strlit("Upgrade");
    reveal_strlit("upgrade");
    reveal_strlit("Connection");
    reveal_strlit("connection");
    reveal_strlit("Sec-WebSocket-Accept");
    reveal_strlit("sec-websocket-accept");
    reveal_strlit("Sec-WebSocket-Protocol");
    reveal_strlit("sec-websocket-protocol");
    reveal_strlit("Sec-WebSocket-Extensions");
    reveal_strlit("sec-websocket-extensions");
}

proof fn lemma_parse_empty(s: Seq<char>)
    requires
        s.len() == 0,
    ensures
        spec_parse_extensions(s).len() == 0,
{
    let parts = spec_split(s, ',');
    assert(parts == seq![s.subrange(0, 0)]);
    assert(s.subrange(0, 0) =~= s);
    assert(trim_start(s) == s);
    assert(trim_end(s) == s);
    assert(spec_parse_extension(parts[0]) is None);
    assert(spec_parse_list(parts, 1) == Seq::<ExtSpec>::empty());
}

/// The server's own check leaves only non-empty elements that follow the
/// grammar.
proof fn lemma_checked_elements(resp_exts: Seq<Seq<char>>, req_exts: Seq<Seq<char>>, k: int)
    requires
        0 <= k <= resp_exts.len(),
        response_extension_problem(resp_exts, req_exts, k) is None,
    ensures
        first_strict_error(resp_exts, k) is None,
        forall|i: int| k <= i < resp_exts.len() ==> #[trigger] resp_exts[i].len() > 0,
    decreases resp_exts.len() - k,
{
    if k < resp_exts.len() {
        lemma_checked_elements(resp_exts, req_exts, k + 1);
        if resp_exts[k].len() == 0 {
            lemma_parse_empty(resp_exts[k]);
        }
    }
}

/// Fields none of whose names is `low` (ignoring case) hold no field named
/// `name` when `name` and `low` are the same ignoring case.
proof fn lemma_fields_without(hs: Fields, name: Seq<char>, low: Seq<char>)
    requires
        ci_eq(name, low),
        forall|i: int| 0 <= i < hs.len() ==> !ci_eq(#[trigger] hs[i].0, low),
    ensures
        header_values(hs, name) == Seq::<Seq<char>>::empty(),
{
    assert forall|i: int| 0 <= i < hs.len() implies !ci_eq(#[trigger] hs[i].0, name) by {
        if ci_eq(hs[i].0, name) {
            lemma_ci_eq_trans(hs[i].0, name, low);
        }
    }
    lemma_header_values_none(hs, name);
}

proof fn lemma_values_of_parts(u: Fields, c: Fields, a: Fields, pf: Fields, ef: Fields, xf: Fields, name: Seq<char>)
    ensures
        header_values(u + c + a + pf + ef + xf, name) == header_values(u, name) + header_values(c, name)
            + header_values(a, name) + header_values(pf, name) + header_values(ef, name)
            + header_values(xf, name),
{
    lemma_header_values_append(u + c + a + pf + ef, xf, name);
    lemma_header_values_append(u + c + a + pf, ef, name);
    lemma_header_values_append(u + c + a, pf, name);
    lemma_header_values_append(u + c, a, name);
    lemma_header_values_append(u, c, name);
}

proof fn lemma_lists_token(v: Seq<char>, tok: Seq<char>)
    requires
        v.len() > 0,
        !is_white(v[0]),
        !is_white(v[v.len() - 1]),
        forall|k: int| 0 <= k < v.len() ==> #[trigger] v[k] != ',',
        ci_eq(v, tok),
    ensures
        has_token(seq![v], tok),
{
    lemma_plain_split_none(v, ',', 0, 0);
    assert(v.subrange(0, v.len() as int) =~= v);
    assert(trim_start(v) == v);
    assert(trim_end(v) == v);
    assert(plain_split(v, ',')[0] == v);
    assert(value_has_token(seq![v][0], tok));
}

/// Every `101` answer that passes the server's own check is accepted by the
/// client's check of the response fields: the `Sec-WebSocket-Accept` value
/// matches the one the client expects for the key it sent, and the client
/// reads back the chosen subprotocol and the extension elements. This holds
/// when no extension element holds a comma or surrounding white space (the
/// client cuts extension fields at every comma, quoted or not, and trims the
/// pieces).
pub proof fn lemma_accepted_answer_passes_client_check(
    req: ServerRequestSpec,
    resp: ServerResponseSpec,
    h: HeadSpec,
)
    requires
        spec_check_server_response(req, resp) is None,
        h.headers == spec_response_fields(req, resp),
        comma_free(resp.extensions),
        forall|i: int|
            0 <= i < resp.extensions.len() ==> #[trigger] trim(resp.extensions[i])
                == resp.extensions[i],
    ensures
        spec_check_response(h, spec_accept_from_key(req.key)) == Ok::<HandshakeSpec, Seq<char>>(
            HandshakeSpec { protocol: resp.protocol, extensions: resp.extensions },
        ),
{
    let exp = spec_accept_from_key(req.key);
    let exts = resp.extensions;
    let xf = resp.additional_headers;
    let u = seq![("Upgrade"@, "websocket"@)];
    let c = seq![("Connection"@, "Upgrade"@)];
    let a = seq![("Sec-WebSocket-Accept"@, exp)];
    let pf: Fields = match resp.protocol {
        Some(p) => seq![("Sec-WebSocket-Protocol"@, p)],
        None => Seq::empty(),
    };
    let ef: Fields = if exts.len() > 0 {
        seq![("Sec-WebSocket-Extensions"@, join(exts, ", "@))]
    } else {
        Seq::empty()
    };
    assert(h.headers =~= u + c + a + pf + ef + xf);

    // What the server's check left through.
    lemma_checked_elements(exts, req.extensions, 0);
    lemma_no_reserved(xf, 0);
    lemma_reserved_spellings();
    reveal_strlit("Upgrade");
    reveal_strlit("Connection");
    reveal_strlit("Sec-WebSocket-Accept");
    reveal_strlit("Sec-WebSocket-Protocol");
    reveal_strlit("Sec-WebSocket-Extensions");
    reveal_strlit("websocket");
    reveal_strlit("upgrade");
    lemma_fields_without(xf, "Upgrade"@, "upgrade"@);
    lemma_fields_without(xf, "Connection"@, "connection"@);
    lemma_fields_without(xf, "Sec-WebSocket-Accept"@, "sec-websocket-accept"@);
    lemma_fields_without(xf, "Sec-WebSocket-Protocol"@, "sec-websocket-protocol"@);
    lemma_fields_without(xf, "Sec-WebSocket-Extensions"@, "sec-websocket-extensions"@);

    // The five fields the client reads.
    let ev = if exts.len() > 0 {
        seq![join(exts, ", "@)]
    } else {
        Seq::<Seq<char>>::empty()
    };
    let pv = match resp.protocol {
        Some(p) => seq![p],
        None => Seq::<Seq<char>>::empty(),
    };
    lemma_header_values_singletons();
    assert(header_values(Seq::<(Seq<char>, Seq<char>)>::empty(), "Upgrade"@) == Seq::<Seq<char>>::empty());
    lemma_values_of_parts(u, c, a, pf, ef, xf, "Upgrade"@);
    lemma_values_of_parts(u, c, a, pf, ef, xf, "Connection"@);
    lemma_values_of_parts(u, c, a, pf, ef, xf, "Sec-WebSocket-Accept"@);
    lemma_values_of_parts(u, c, a, pf, ef, xf, "Sec-WebSocket-Protocol"@);
    lemma_values_of_parts(u, c, a, pf, ef, xf, "Sec-WebSocket-Extensions"@);
    assert(plain_list(exts));
    lemma_list_read_back(exts);
    let upgrade = header_values(h.headers, "Upgrade"@);
    let connection = header_values(h.headers, "Connection"@);
    let accept = header_values(h.headers, "Sec-WebSocket-Accept"@);
    let protocol = header_values(h.headers, "Sec-WebSocket-Protocol"@);
    let ext_values = header_values(h.headers, "Sec-WebSocket-Extensions"@);
    assert(upgrade =~= seq!["websocket"@]);
    assert(connection =~= seq!["Upgrade"@]);
    assert(accept =~= seq![exp]);
    assert(protocol =~= pv);
    assert(ext_values =~= ev);
    lemma_lists_token("websocket"@, "websocket"@);
    lemma_lists_token("Upgrade"@, "upgrade"@);
}

proof fn lemma_header_values_singletons()
    ensures
        forall|k: Seq<char>, v: Seq<char>, name: Seq<char>|
            #[trigger] header_values(seq![(k, v)], name) == if ci_eq(k, name) {
                seq![v]
            } else {
                Seq::<Seq<char>>::empty()
            },
{
    assert forall|k: Seq<char>, v: Seq<char>, name: Seq<char>|
        #[trigger] header_values(seq![(k, v)], name) == if ci_eq(k, name) {
            seq![v]
        } else {
            Seq::<Seq<char>>::empty()
        } by {
        lemma_header_values_one(k, v, name);
    }
}

/// Whether `n` names, ignoring case, a field that a handshake request sets.
pub open spec fn is_request_field_name(n: Seq<char>) -> bool {
    ci_eq(n, "Host"@) || ci_eq(n, "Upgrade"@) || ci_eq(n, "Connection"@) || ci_eq(
        n,
        "Sec-WebSocket-Key"@,
    ) || ci_eq(n, "Sec-WebSocket-Version"@) || ci_eq(n, "Origin"@) || ci_eq(
        n,
        "Sec-WebSocket-Protocol"@,
    ) || ci_eq(n, "Sec-WebSocket-Extensions"@)
}

/// Non-empty elements, each equal to its trim, none holding a comma: a list
/// that survives being joined with `, ` and cut again.
pub open spec fn plain_list(es: Seq<Seq<char>>) -> bool {
    &&& comma_free(es)
    &&& forall|i: int| 0 <= i < es.len() ==> #[trigger] trim(es[i]) == es[i] && es[i].len() > 0
}

proof fn lemma_list_read_back(es: Seq<Seq<char>>)
    requires
        plain_list(es),
    ensures
        extension_elements(
            if es.len() > 0 {
                seq![join(es, ", "@)]
            } else {
                Seq::<Seq<char>>::empty()
            },
        ) == es,
{
    if es.len() > 0 {
        lemma_elements_of_joined(es);
    }
}

proof fn lemma_values_of_request_parts(
    f1: Fields,
    f2: Fields,
    f3: Fields,
    f4: Fields,
    f5: Fields,
    of: Fields,
    pf: Fields,
    ef: Fields,
    xf: Fields,
    name: Seq<char>,
)
    ensures
        header_values(f1 + f2 + f3 + f4 + f5 + of + pf + ef + xf, name) == header_values(f1, name)
            + header_values(f2, name) + header_values(f3, name) + header_values(f4, name)
            + header_values(f5, name) + header_values(of, name) + header_values(pf, name)
            + header_values(ef, name) + header_values(xf, name),
{
    lemma_header_values_append(f1 + f2 + f3 + f4 + f5 + of + pf + ef, xf, name);
    lemma_header_values_append(f1 + f2 + f3 + f4 + f5 + of + pf, ef, name);
    lemma_header_values_append(f1 + f2 + f3 + f4 + f5 + of, pf, name);
    lemma_header_values_append(f1 + f2 + f3 + f4 + f5, of, name);
    lemma_header_values_append(f1 + f2 + f3 + f4, f5, name);
    lemma_header_values_append(f1 + f2 + f3, f4, name);
    lemma_header_values_append(f1 + f2, f3, name);
    lemma_header_values_append(f1, f2, name);
}

/// Every opening request a client builds passes the server's check of the
/// request fields, and the server reads back the path, host, origin, key,
/// offered subprotocols and offered extension elements. This holds when the
/// key is valid, the extra fields repeat none of the fields the request sets,
/// the extension elements follow the grammar, and no subprotocol or
/// extension element holds a comma or surrounding white space (the server
/// cuts those fields at every comma and trims the pieces).
pub proof fn lemma_sent_request_passes_server_check(
    r: RequestSpec,
    key: Seq<char>,
    h: RequestHeadSpec,
)
    requires
        h.method == "GET"@,
        h.target == r.path,
        h.headers == spec_request_fields(r, key),
        spec_valid_key(key),
        forall|i: int| 0 <= i < r.headers.len() ==> !is_request_field_name(#[trigger] r.headers[i].0),
        plain_list(r.protocols),
        plain_list(r.extensions),
        first_strict_error(r.extensions, 0) is None,
    ensures
        spec_check_request(h) == Ok::<ServerRequestSpec, RequestRefusal>(
            ServerRequestSpec {
                path: r.path,
                host: r.host,
                origin: r.origin,
                key,
                protocols: r.protocols,
                extensions: r.extensions,
            },
        ),
{
    let f1 = seq![("Host"@, r.host)];
    let f2 = seq![("Upgrade"@, "websocket"@)];
    let f3 = seq![("Connection"@, "Upgrade"@)];
    let f4 = seq![("Sec-WebSocket-Key"@, key)];
    let f5 = seq![("Sec-WebSocket-Version"@, "13"@)];
    let of: Fields = match r.origin {
        Some(o) => seq![("Origin"@, o)],
        None => Seq::empty(),
    };
    let pf: Fields = if r.protocols.len() > 0 {
        seq![("Sec-WebSocket-Protocol"@, join(r.protocols, ", "@))]
    } else {
        Seq::empty()
    };
    let ef: Fields = if r.extensions.len() > 0 {
        seq![("Sec-WebSocket-Extensions"@, join(r.extensions, ", "@))]
    } else {
        Seq::empty()
    };
    let xf = r.headers;
    assert(h.headers =~= f1 + f2 + f3 + f4 + f5 + of + pf + ef + xf);
    lemma_header_values_singletons();
    assert(header_values(Seq::<(Seq<char>, Seq<char>)>::empty(), "Host"@) == Seq::<Seq<char>>::empty());
    reveal_strlit("Host");
    reveal_strlit("Upgrade");
    reveal_strlit("Connection");
    reveal_strlit("Sec-WebSocket-Key");
    reveal_strlit("Sec-WebSocket-Version");
    reveal_strlit("Origin");
    reveal_strlit("Sec-WebSocket-Protocol");
    reveal_strlit("Sec-WebSocket-Extensions");
    reveal_strlit("websocket");
    reveal_strlit("upgrade");
    lemma_reserved_spellings();
    lemma_header_values_none(xf, "Host"@);
    lemma_header_values_none(xf, "Upgrade"@);
    lemma_header_values_none(xf, "Connection"@);
    lemma_header_values_none(xf, "Sec-WebSocket-Key"@);
    lemma_header_values_none(xf, "Sec-WebSocket-Version"@);
    lemma_header_values_none(xf, "Origin"@);
    lemma_header_values_none(xf, "Sec-WebSocket-Protocol"@);
    lemma_header_values_none(xf, "Sec-WebSocket-Extensions"@);
    lemma_values_of_request_parts(f1, f2, f3, f4, f5, of, pf, ef, xf, "Host"@);
    lemma_values_of_request_parts(f1, f2, f3, f4, f5, of, pf, ef, xf, "Upgrade"@);
    lemma_values_of_request_parts(f1, f2, f3, f4, f5, of, pf, ef, xf, "Connection"@);
    lemma_values_of_request_parts(f1, f2, f3, f4, f5, of, pf, ef, xf, "Sec-WebSocket-Key"@);
    lemma_values_of_request_parts(f1, f2, f3, f4, f5, of, pf, ef, xf, "Sec-WebSocket-Version"@);
    lemma_values_of_request_parts(f1, f2, f3, f4, f5, of, pf, ef, xf, "Origin"@);
    lemma_values_of_request_parts(f1, f2, f3, f4, f5, of, pf, ef, xf, "Sec-WebSocket-Protocol"@);
    lemma_values_of_request_parts(f1, f2, f3, f4, f5, of, pf, ef, xf, "Sec-WebSocket-Extensions"@);
    let host = header_values(h.headers, "Host"@);
    let upgrade = header_values(h.headers, "Upgrade"@);
    let connection = header_values(h.headers, "Connection"@);
    let keys = header_values(h.headers, "Sec-WebSocket-Key"@);
    let version = header_values(h.headers, "Sec-WebSocket-Version"@);
    let origin = header_values(h.headers, "Origin"@);
    let pvals = header_values(h.headers, "Sec-WebSocket-Protocol"@);
    let evals = header_values(h.headers, "Sec-WebSocket-Extensions"@);
    assert(host =~= seq![r.host]);
    assert(upgrade =~= seq!["websocket"@]);
    assert(connection =~= seq!["Upgrade"@]);
    assert(keys =~= seq![key]);
    assert(version =~= seq!["13"@]);
    assert(origin =~= match r.origin {
        Some(o) => seq![o],
        None => Seq::<Seq<char>>::empty(),
    });
    assert(pvals =~= if r.protocols.len() > 0 {
        seq![join(r.protocols, ", "@)]
    } else {
        Seq::<Seq<char>>::empty()
    });
    assert(evals =~= if r.extensions.len() > 0 {
        seq![join(r.extensions, ", "@)]
    } else {
        Seq::<Seq<char>>::empty()
    });
    lemma_list_read_back(r.protocols);
    lemma_list_read_back(r.extensions);
    lemma_lists_token("websocket"@, "websocket"@);
    lemma_lists_token("Upgrade"@, "upgrade"@);
}

/// The parameters of a configuration name the client window exactly when the
/// configuration has one.
proof fn lemma_config_names_client_window(c: PerMessageDeflateConfig)
    ensures
        has_param(ExtSpec { name: pmd_name(), params: spec_config_params(c) }, cmwb_name())
            <==> c.client_max_window_bits is Some,
{
    let e = ExtSpec { name: pmd_name(), params: spec_config_params(c) };
    reveal_strlit("server_no_context_takeover");
    reveal_strlit("client_no_context_takeover");
    reveal_strlit("server_max_window_bits");
    reveal_strlit("client_max_window_bits");
    assert(smwb_name()[0] != cmwb_name()[0]);
    if c.client_max_window_bits is Some {
        assert(e.params[e.params.len() - 1].name == cmwb_name());
    } else {
        assert forall|i: int| 0 <= i < e.params.len() implies #[trigger] e.params[i].name != cmwb_name() by {
            assert(e.params[i].name == snct_name() || e.params[i].name == cnct_name() || e.params[i].name == smwb_name());
        }
    }
}

/// A client that offered `offer` reads back the permessage-deflate element
/// that a server configured with `server` negotiates from that offer and
/// writes, accepts it, and takes the negotiated configuration. This holds
/// unless the negotiated client window is below 15 bits, which the client
/// does not support (for instance an offer with a client window answered by a
/// server configured for 10 bits).
pub proof fn lemma_client_accepts_negotiated_answer(
    offer: PerMessageDeflateConfig,
    server: PerMessageDeflateConfig,
)
    requires
        window_bits_ok(offer),
        window_bits_ok(server),
        spec_negotiate(offer, server).client_max_window_bits matches Some(b) ==> b == 15,
    ensures
        spec_parse_extensions(
            spec_encode_extension(
                ExtSpec { name: pmd_name(), params: spec_config_params(spec_negotiate(offer, server)) },
            ),
        ) == seq![ExtSpec { name: pmd_name(), params: spec_config_params(spec_negotiate(offer, server)) }],
        check_deflate_answer(
            ExtSpec { name: pmd_name(), params: spec_config_params(spec_negotiate(offer, server)) },
            Some(offer),
        ) == Ok::<Option<PerMessageDeflateConfig>, Seq<char>>(Some(spec_negotiate(offer, server))),
{
    let n = spec_negotiate(offer, server);
    lemma_negotiate_within_offers(offer, server);
    assert(window_bits_ok(n));
    lemma_config_token_extension(n);
    lemma_encode_parse_roundtrip(ExtSpec { name: pmd_name(), params: spec_config_params(n) });
    lemma_config_roundtrip(n, ExtensionParseContext::ClientResponse);
    lemma_config_names_client_window(n);
}

} // verus!
