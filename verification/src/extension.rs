//! `Sec-WebSocket-Extensions` values (RFC 6455 Section 9.1) and the
//! permessage-deflate parameters (RFC 7692).

use vstd::prelude::*;
use vstd::string::StringExecFns;

use crate::text::{
    str_eq,
    chars_eq, concat_str, parse_u8, push_char, spec_parse_u8, str_chars, string_from_chars,
    string_from_range, string_from_str, trim, trim_end, trim_range, trim_start, u8_to_decimal,
    decimal,
};
use crate::token::{chars_are_token, is_tchar, is_token};

verus! {

// ---------------------------------------------------------------------------
// Splitting on a delimiter outside quoted strings
// ---------------------------------------------------------------------------

/// Where a left-to-right scan stands with respect to quoted strings.
#[derive(Clone, Copy, PartialEq, Eq, Structural)]
pub enum QuoteState {
    /// Outside any quoted string.
    Outside,
    /// Inside a quoted string.
    Inside,
    /// Inside a quoted string, right after a backslash.
    Escaped,
}

/// The scan state after reading `c` in state `st`.
pub open spec fn quote_step(st: QuoteState, c: char) -> QuoteState {
    match st {
        QuoteState::Outside => if c == '"' {
            QuoteState::Inside
        } else {
            QuoteState::Outside
        },
        QuoteState::Inside => if c == '\\' {
            QuoteState::Escaped
        } else if c == '"' {
            QuoteState::Outside
        } else {
            QuoteState::Inside
        },
        QuoteState::Escaped => QuoteState::Inside,
    }
}

/// The pieces of `s` from position `j` on, cut at every `d` seen outside a
/// quoted string; the current piece started at `start`.
pub open spec fn split_from(s: Seq<char>, d: char, j: int, st: QuoteState, start: int) -> Seq<
    Seq<char>,
>
    decreases s.len() - j,
{
    if j >= s.len() {
        seq![s.subrange(start, s.len() as int)]
    } else if st == QuoteState::Outside && s[j] == d {
        seq![s.subrange(start, j)] + split_from(s, d, j + 1, QuoteState::Outside, j + 1)
    } else {
        split_from(s, d, j + 1, quote_step(st, s[j]), start)
    }
}

/// `s` cut at every `d` that is not inside a quoted string.
pub open spec fn spec_split(s: Seq<char>, d: char) -> Seq<Seq<char>> {
    split_from(s, d, 0, QuoteState::Outside, 0)
}

proof fn lemma_split_from_nonempty(s: Seq<char>, d: char, j: int, st: QuoteState, start: int)
    ensures
        split_from(s, d, j, st, start).len() >= 1,
    decreases s.len() - j,
{
    if j >= s.len() {
    } else if st == QuoteState::Outside && s[j] == d {
        lemma_split_from_nonempty(s, d, j + 1, QuoteState::Outside, j + 1);
    } else {
        lemma_split_from_nonempty(s, d, j + 1, quote_step(st, s[j]), start);
    }
}

fn next_quote_state(st: QuoteState, c: char) -> (r: QuoteState)
    ensures
        r == quote_step(st, c),
{
    match st {
        QuoteState::Outside => if c == '"' {
            QuoteState::Inside
        } else {
            QuoteState::Outside
        },
        QuoteState::Inside => if c == '\\' {
            QuoteState::Escaped
        } else if c == '"' {
            QuoteState::Outside
        } else {
            QuoteState::Inside
        },
        QuoteState::Escaped => QuoteState::Inside,
    }
}

/// Splits `s` at every `d` outside a quoted string (a backslash inside quotes
/// escapes the next character); returns the bounds of the pieces.
pub fn split_respecting_quotes(s: &[char], d: char) -> (r: Vec<(usize, usize)>)
    ensures
        r@.len() == spec_split(s@, d).len(),
        r@.len() >= 1,
        forall|k: int|
            0 <= k < r@.len() ==> #[trigger] r@[k].0 <= r@[k].1 <= s@.len() && s@.subrange(
                r@[k].0 as int,
                r@[k].1 as int,
            ) == spec_split(s@, d)[k],
{
    let mut out: Vec<(usize, usize)> = Vec::new();
    let ghost mut acc: Seq<Seq<char>> = Seq::empty();
    let mut st = QuoteState::Outside;
    let mut start: usize = 0;
    let mut i: usize = 0;
    while i < s.len()
        invariant
            start <= i <= s@.len(),
            spec_split(s@, d) == acc + split_from(s@, d, i as int, st, start as int),
            out@.len() == acc.len(),
            forall|k: int|
                0 <= k < out@.len() ==> #[trigger] out@[k].0 <= out@[k].1 <= s@.len()
                    && s@.subrange(out@[k].0 as int, out@[k].1 as int) == acc[k],
        decreases s@.len() - i,
    {
        if st == QuoteState::Outside && s[i] == d {
            out.push((start, i));
            proof {
                let piece = s@.subrange(start as int, i as int);
                assert(split_from(s@, d, i as int, st, start as int) == seq![piece] + split_from(
                    s@,
                    d,
                    i + 1,
                    QuoteState::Outside,
                    i + 1,
                ));
                assert(acc + (seq![piece] + split_from(s@, d, i + 1, QuoteState::Outside, i + 1))
                    =~= acc.push(piece) + split_from(s@, d, i + 1, QuoteState::Outside, i + 1));
                acc = acc.push(piece);
            }
            start = i + 1;
        } else {
            st = next_quote_state(st, s[i]);
        }
        i = i + 1;
    }
    out.push((start, s.len()));
    proof {
        let piece = s@.subrange(start as int, s@.len() as int);
        assert(split_from(s@, d, i as int, st, start as int) == seq![piece]);
        acc = acc.push(piece);
    }
    out
}

// ---------------------------------------------------------------------------
// Parameter values
// ---------------------------------------------------------------------------

/// The position of the first `"` in `s` at or after `i` that is not escaped
/// by a preceding backslash.
pub open spec fn find_quote(s: Seq<char>, i: int) -> Option<int>
    decreases s.len() + 2 - i,
{
    if i >= s.len() || i < 0 {
        None
    } else if s[i] == '\\' {
        find_quote(s, i + 2)
    } else if s[i] == '"' {
        Some(i)
    } else {
        find_quote(s, i + 1)
    }
}

/// `s` with each backslash escape replaced by the escaped character; a
/// trailing lone backslash is dropped.
pub open spec fn unescape(s: Seq<char>) -> Seq<char>
    decreases s.len(),
{
    if s.len() == 0 {
        Seq::empty()
    } else if s[0] == '\\' {
        if s.len() >= 2 {
            seq![s[1]] + unescape(s.subrange(2, s.len() as int))
        } else {
            Seq::empty()
        }
    } else {
        seq![s[0]] + unescape(s.drop_first())
    }
}

/// A parameter value: a token, or a quoted string whose unescaped content is
/// a token (RFC 6455 Section 9.1). `None` when it is neither.
pub open spec fn spec_param_value(v: Seq<char>) -> Option<Seq<char>> {
    if v.len() >= 2 && v[0] == '"' && find_quote(v.drop_first(), 0) is Some {
        let u = unescape(v.drop_first().take(find_quote(v.drop_first(), 0)->0));
        if is_token(u) {
            Some(u)
        } else {
            None
        }
    } else if is_token(v) {
        Some(v)
    } else {
        None
    }
}

/// Position of the first unescaped `"` in `s`.
fn find_unescaped_quote(s: &[char]) -> (r: Option<usize>)
    ensures
        r matches Some(i) ==> find_quote(s@, 0) == Some(i as int) && i < s@.len(),
        r is None ==> find_quote(s@, 0) is None,
{
    let mut i: usize = 0;
    while i < s.len()
        invariant
            find_quote(s@, 0) == find_quote(s@, i as int),
        decreases s@.len() - i,
    {
        if s[i] == '\\' {
            if i >= s.len() - 1 {
                assert(find_quote(s@, i + 2) is None);
                return None;
            }
            i = i + 2;
        } else if s[i] == '"' {
            return Some(i);
        } else {
            i = i + 1;
        }
    }
    None
}

/// The unescaped content of a quoted string body.
fn unescape_quoted_string(s: &[char]) -> (r: Vec<char>)
    ensures
        r@ == unescape(s@),
{
    let mut out: Vec<char> = Vec::new();
    let mut i: usize = 0;
    assert(s@.subrange(0, s@.len() as int) =~= s@);
    while i < s.len()
        invariant
            i <= s@.len(),
            unescape(s@) == out@ + unescape(s@.subrange(i as int, s@.len() as int)),
        decreases s@.len() - i,
    {
        let ghost rest = s@.subrange(i as int, s@.len() as int);
        if s[i] == '\\' {
            if i + 1 < s.len() {
                out.push(s[i + 1]);
                proof {
                    assert(rest.subrange(2, rest.len() as int) =~= s@.subrange(
                        i + 2,
                        s@.len() as int,
                    ));
                    assert(unescape(rest) == seq![s@[i + 1]] + unescape(
                        rest.subrange(2, rest.len() as int),
                    ));
                }
                assert(unescape(s@) =~= out@ + unescape(s@.subrange(i + 2, s@.len() as int)));
                i = i + 2;
            } else {
                assert(unescape(rest) =~= Seq::<char>::empty());
                assert(unescape(s@) =~= out@);
                return out;
            }
        } else {
            out.push(s[i]);
            proof {
                assert(rest.drop_first() =~= s@.subrange(i + 1, s@.len() as int));
            }
            assert(unescape(s@) =~= out@ + unescape(s@.subrange(i + 1, s@.len() as int)));
            i = i + 1;
        }
    }
    assert(unescape(s@.subrange(i as int, s@.len() as int)) =~= Seq::<char>::empty());
    assert(unescape(s@) =~= out@);
    out
}

/// Copies `s[lo..hi]`.
pub fn copy_range(s: &[char], lo: usize, hi: usize) -> (r: Vec<char>)
    requires
        lo <= hi <= s@.len(),
    ensures
        r@ == s@.subrange(lo as int, hi as int),
{
    let mut out: Vec<char> = Vec::new();
    let mut i: usize = lo;
    while i < hi
        invariant
            lo <= i <= hi <= s@.len(),
            out@ == s@.subrange(lo as int, i as int),
        decreases hi - i,
    {
        out.push(s[i]);
        i = i + 1;
        assert(out@ =~= s@.subrange(lo as int, i as int));
    }
    out
}

/// Parses a parameter value: a token or a quoted string holding a token.
fn parse_param_value(value: &[char]) -> (r: Option<Vec<char>>)
    ensures
        r matches Some(v) ==> spec_param_value(value@) == Some(v@),
        r is None ==> spec_param_value(value@) is None,
{
    if value.len() >= 2 && value[0] == '"' {
        let inner = copy_range(value, 1, value.len());
        assert(inner@ =~= value@.drop_first());
        if let Some(end_quote) = find_unescaped_quote(inner.as_slice()) {
            let quoted = copy_range(inner.as_slice(), 0, end_quote);
            assert(quoted@ =~= inner@.take(end_quote as int));
            let unescaped = unescape_quoted_string(quoted.as_slice());
            if chars_are_token(unescaped.as_slice()) {
                return Some(unescaped);
            }
            return None;
        }
    }
    if chars_are_token(value) {
        let v = copy_range(value, 0, value.len());
        assert(v@ =~= value@);
        Some(v)
    } else {
        None
    }
}


// ---------------------------------------------------------------------------
// Extensions
// ---------------------------------------------------------------------------

/// The content of an extension parameter.
pub struct ParamSpec {
    pub name: Seq<char>,
    pub value: Option<Seq<char>>,
}

/// The content of an extension.
pub struct ExtSpec {
    pub name: Seq<char>,
    pub params: Seq<ParamSpec>,
}

/// A WebSocket extension parameter.
#[derive(Debug, Clone, PartialEq, Eq)]
pub struct ExtensionParam {
    pub name: String,
    pub value: Option<String>,
}

impl View for ExtensionParam {
    type V = ParamSpec;

    open spec fn view(&self) -> ParamSpec {
        ParamSpec {
            name: self.name@,
            value: match self.value {
                Some(v) => Some(v@),
                None => None,
            },
        }
    }
}

/// A WebSocket extension with its parameters.
#[derive(Debug, Clone, PartialEq, Eq)]
pub struct Extension {
    pub name: String,
    pub params: Vec<ExtensionParam>,
}

pub open spec fn params_view(ps: Seq<ExtensionParam>) -> Seq<ParamSpec> {
    ps.map_values(|p: ExtensionParam| p@)
}

impl View for Extension {
    type V = ExtSpec;

    open spec fn view(&self) -> ExtSpec {
        ExtSpec { name: self.name@, params: params_view(self.params@) }
    }
}

/// The parameters of an extension from piece `k` on (pieces are the
/// `;`-separated parts of the extension text); `None` when a value is not a
/// token or a quoted token.
pub open spec fn spec_parse_params(parts: Seq<Seq<char>>, k: int) -> Option<Seq<ParamSpec>>
    decreases parts.len() - k,
{
    if k >= parts.len() || k < 0 {
        Some(Seq::empty())
    } else {
        match spec_param_piece(parts[k]) {
            None => None,
            Some(None) => spec_parse_params(parts, k + 1),
            Some(Some(p)) => match spec_parse_params(parts, k + 1) {
                Some(rest) => Some(seq![p] + rest),
                None => None,
            },
        }
    }
}

/// One `;`-separated piece after the extension name: `Some(None)` when it is
/// blank, `Some(Some(param))` for `name` or `name=value`, and `None` when the
/// value is neither a token nor a quoted token.
pub open spec fn spec_param_piece(piece: Seq<char>) -> Option<Option<ParamSpec>> {
    let p = trim(piece);
    if p.len() == 0 {
        Some(None)
    } else {
        match find_char(p, '=') {
            Some(e) => match spec_param_value(trim(p.subrange(e + 1, p.len() as int))) {
                None => None,
                Some(v) => Some(Some(ParamSpec { name: trim(p.take(e)), value: Some(v) })),
            },
            None => Some(Some(ParamSpec { name: p, value: None })),
        }
    }
}

/// One comma-separated element of a `Sec-WebSocket-Extensions` value; `None`
/// when it is empty, has an empty name, or has a malformed parameter value.
pub open spec fn spec_parse_extension(part: Seq<char>) -> Option<ExtSpec> {
    let ext = trim(part);
    if ext.len() == 0 {
        None
    } else {
        let parts = spec_split(ext, ';');
        let name = trim(parts[0]);
        if name.len() == 0 {
            None
        } else {
            match spec_parse_params(parts, 1) {
                Some(ps) => Some(ExtSpec { name, params: ps }),
                None => None,
            }
        }
    }
}

/// The extensions of the elements from `k` on, skipping the rejected ones.
pub open spec fn spec_parse_list(parts: Seq<Seq<char>>, k: int) -> Seq<ExtSpec>
    decreases parts.len() - k,
{
    if k >= parts.len() || k < 0 {
        Seq::empty()
    } else {
        match spec_parse_extension(parts[k]) {
            Some(e) => seq![e] + spec_parse_list(parts, k + 1),
            None => spec_parse_list(parts, k + 1),
        }
    }
}

/// The extensions a `Sec-WebSocket-Extensions` value lists.
pub open spec fn spec_parse_extensions(s: Seq<char>) -> Seq<ExtSpec> {
    spec_parse_list(spec_split(s, ','), 0)
}

/// Position of the first `c` in `s`.
pub open spec fn find_char(s: Seq<char>, c: char) -> Option<int> {
    if exists|i: int| 0 <= i < s.len() && s[i] == c {
        Some(choose|i: int| 0 <= i < s.len() && s[i] == c && forall|j: int| 0 <= j < i ==> s[j] != c)
    } else {
        None
    }
}

/// Position of the first `c` in `s[lo..hi]`, as an index into `s`.
pub fn find_char_in(s: &[char], lo: usize, hi: usize, c: char) -> (r: Option<usize>)
    requires
        lo <= hi <= s@.len(),
    ensures
        r matches Some(i) ==> lo <= i < hi && find_char(s@.subrange(lo as int, hi as int), c)
            == Some(i - lo),
        r is None ==> find_char(s@.subrange(lo as int, hi as int), c) is None,
{
    let ghost t = s@.subrange(lo as int, hi as int);
    let mut i: usize = lo;
    while i < hi
        invariant
            lo <= i <= hi <= s@.len(),
            t == s@.subrange(lo as int, hi as int),
            forall|j: int| lo <= j < i ==> s@[j] != c,
        decreases hi - i,
    {
        if s[i] == c {
            proof {
                let w = i - lo;
                assert(t[w] == c);
                assert forall|j: int| 0 <= j < w implies t[j] != c by {
                    assert(t[j] == s@[lo + j]);
                }
                let ch = choose|k: int| 0 <= k < t.len() && t[k] == c && forall|j: int| 0 <= j < k ==> t[j] != c;
                assert(ch == w) by {
                    if ch < w {
                        assert(t[ch] != c);
                    } else if ch > w {
                        assert(t[w] != c);
                    }
                }
            }
            return Some(i);
        }
        i = i + 1;
    }
    assert forall|k: int| 0 <= k < t.len() implies t[k] != c by {
        assert(t[k] == s@[lo + k]);
    }
    None
}

pub open spec fn opt_prepend<T>(acc: Seq<T>, o: Option<Seq<T>>) -> Option<Seq<T>> {
    match o {
        Some(r) => Some(acc + r),
        None => None,
    }
}

proof fn lemma_params_view_push(ps: Seq<ExtensionParam>, p: ExtensionParam)
    ensures
        params_view(ps.push(p)) == params_view(ps).push(p@),
{
    assert(params_view(ps.push(p)) =~= params_view(ps).push(p@));
}

/// Parses the piece `ext[a..b]` after the extension name.
#[verifier::rlimit(40)]
fn parse_param_piece(ext: &[char], a: usize, b: usize) -> (r: Option<Option<ExtensionParam>>)
    requires
        a <= b <= ext@.len(),
    ensures
        match r {
            None => spec_param_piece(ext@.subrange(a as int, b as int)) is None,
            Some(None) => spec_param_piece(ext@.subrange(a as int, b as int)) == Some(
                None::<ParamSpec>,
            ),
            Some(Some(param)) => spec_param_piece(ext@.subrange(a as int, b as int)) == Some(
                Some(param@),
            ),
        },
{
    let (plo, phi) = trim_range(ext, a, b);
    let ghost p = ext@.subrange(plo as int, phi as int);
    if plo == phi {
        return Some(None);
    }
    match find_char_in(ext, plo, phi, '=') {
        Some(e) => {
            let (qlo, qhi) = trim_range(ext, plo, e);
            let (vlo, vhi) = trim_range(ext, e + 1, phi);
            proof {
                assert(p.take(e - plo) =~= ext@.subrange(plo as int, e as int));
                assert(p.subrange(e - plo + 1, p.len() as int) =~= ext@.subrange(
                    e + 1,
                    phi as int,
                ));
            }
            let raw = copy_range(ext, vlo, vhi);
            match parse_param_value(raw.as_slice()) {
                None => None,
                Some(v) => {
                    let param = ExtensionParam {
                        name: string_from_range(ext, qlo, qhi),
                        value: Some(string_from_chars(v.as_slice())),
                    };
                    Some(Some(param))
                },
            }
        },
        None => {
            let param = ExtensionParam { name: string_from_range(ext, plo, phi), value: None };
            Some(Some(param))
        },
    }
}

/// Parses one comma-separated element.
fn parse_one(part: &[char]) -> (r: Option<Extension>)
    ensures
        r matches Some(e) ==> spec_parse_extension(part@) == Some(e@),
        r is None ==> spec_parse_extension(part@) is None,
{
    let (lo, hi) = trim_range(part, 0, part.len());
    assert(part@.subrange(0, part@.len() as int) =~= part@);
    if lo == hi {
        return None;
    }
    let ext = copy_range(part, lo, hi);
    let pieces = split_respecting_quotes(ext.as_slice(), ';');
    let ghost parts = spec_split(ext@, ';');
    let (n0, n1) = pieces[0];
    let (nlo, nhi) = trim_range(ext.as_slice(), n0, n1);
    if nlo == nhi {
        return None;
    }
    let name = string_from_range(ext.as_slice(), nlo, nhi);
    let mut params: Vec<ExtensionParam> = Vec::new();
    let mut k: usize = 1;
    while k < pieces.len()
        invariant
            1 <= k <= pieces@.len(),
            ext@ == trim(part@),
            trim(parts[0]).len() > 0,
            name@ == trim(parts[0]),
            pieces@.len() == parts.len(),
            parts == spec_split(ext@, ';'),
            forall|m: int|
                0 <= m < pieces@.len() ==> #[trigger] pieces@[m].0 <= pieces@[m].1 <= ext@.len()
                    && ext@.subrange(pieces@[m].0 as int, pieces@[m].1 as int) == parts[m],
            spec_parse_params(parts, 1) == opt_prepend(
                params_view(params@),
                spec_parse_params(parts, k as int),
            ),
        decreases pieces@.len() - k,
    {
        let (a, b) = pieces[k];
        match parse_param_piece(ext.as_slice(), a, b) {
            None => {
                assert(spec_parse_params(parts, 1) is None);
                assert(ext@ == trim(part@));
                return None;
            },
            Some(None) => {},
            Some(Some(param)) => {
                proof {
                    lemma_params_view_push(params@, param);
                    match spec_parse_params(parts, k + 1) {
                        Some(rest) => {
                            assert(params_view(params@) + (seq![param@] + rest)
                                =~= params_view(params@).push(param@) + rest);
                        },
                        None => {},
                    }
                }
                params.push(param);
            },
        }
        k = k + 1;
    }
    assert(spec_parse_params(parts, k as int) == Some(Seq::<ParamSpec>::empty()));
    assert(params_view(params@) + Seq::<ParamSpec>::empty() =~= params_view(params@));
    Some(Extension { name, params })
}

impl Extension {
    /// An extension with the given name and no parameters.
    pub fn new(name: &str) -> (r: Extension)
        ensures
            r@ == (ExtSpec { name: name@, params: Seq::empty() }),
    {
        let r = Extension { name: string_from_str(name), params: Vec::new() };
        assert(r@.params =~= Seq::<ParamSpec>::empty());
        r
    }

    /// The extension with one more parameter at the end.
    pub fn param(self, name: &str, value: Option<&str>) -> (r: Extension)
        ensures
            r@ == (ExtSpec {
                name: self@.name,
                params: self@.params.push(
                    ParamSpec {
                        name: name@,
                        value: match value {
                            Some(v) => Some(v@),
                            None => None,
                        },
                    },
                ),
            }),
    {
        let mut params = self.params;
        let p = ExtensionParam {
            name: string_from_str(name),
            value: match value {
                Some(v) => Some(string_from_str(v)),
                None => None,
            },
        };
        proof {
            lemma_params_view_push(params@, p);
        }
        params.push(p);
        Extension { name: self.name, params }
    }

    /// The first parameter with the given name.
    pub fn get_param(&self, name: &str) -> (r: Option<&ExtensionParam>)
        ensures
            r is None <==> (forall|i: int|
                0 <= i < self@.params.len() ==> #[trigger] self@.params[i].name != name@),
            r matches Some(p) ==> exists|i: int|
                0 <= i < self@.params.len() && p@ == #[trigger] self@.params[i] && p@.name
                    == name@ && forall|j: int| 0 <= j < i ==> self@.params[j].name != name@,
    {
        let target = str_chars(name);
        let mut i: usize = 0;
        while i < self.params.len()
            invariant
                i <= self.params@.len(),
                target@ == name@,
                forall|j: int| 0 <= j < i ==> #[trigger] self@.params[j].name != name@,
            decreases self.params@.len() - i,
        {
            let pc = str_chars(self.params[i].name.as_str());
            assert(self@.params[i as int] == self.params@[i as int]@);
            if chars_eq(pc.as_slice(), target.as_slice()) {
                assert(self@.params[i as int].name == name@);
                return Some(&self.params[i]);
            }
            i = i + 1;
        }
        None
    }

    /// The extension as a `Sec-WebSocket-Extensions` element:
    /// `name; param; param=value`.
    pub fn encode(&self) -> (r: String)
        ensures
            r@ == spec_encode_extension(self@),
    {
        let mut s = string_from_str(self.name.as_str());
        let mut i: usize = 0;
        while i < self.params.len()
            invariant
                i <= self.params@.len(),
                s@ == self@.name + spec_encode_params(self@.params.take(i as int)),
            decreases self.params@.len() - i,
        {
            let p = &self.params[i];
            push_char(&mut s, ';');
            push_char(&mut s, ' ');
            s.append(p.name.as_str());
            match &p.value {
                Some(v) => {
                    push_char(&mut s, '=');
                    s.append(v.as_str());
                },
                None => {},
            }
            proof {
                let ps = self@.params.take(i + 1);
                assert(ps.drop_last() =~= self@.params.take(i as int));
                assert(ps.last() == p@);
            }
            i = i + 1;
            assert(s@ =~= self@.name + spec_encode_params(self@.params.take(i as int)));
        }
        assert(self@.params.take(self.params@.len() as int) =~= self@.params);
        s
    }

    /// Parses a `Sec-WebSocket-Extensions` value (RFC 6455 Section 9.1).
    ///
    /// Elements are separated by `,` and parameters by `;`, except inside
    /// quoted strings. Empty elements and elements with an empty name are
    /// skipped; an element with a parameter value that is neither a token nor
    /// a quoted string holding a token is dropped entirely.
    pub fn parse(s: &str) -> (r: Vec<Extension>)
        ensures
            r@.map_values(|e: Extension| e@) == spec_parse_extensions(s@),
    {
        let cs = str_chars(s);
        let pieces = split_respecting_quotes(cs.as_slice(), ',');
        let ghost parts = spec_split(s@, ',');
        let mut out: Vec<Extension> = Vec::new();
        let mut k: usize = 0;
        while k < pieces.len()
            invariant
                k <= pieces@.len(),
                cs@ == s@,
                pieces@.len() == parts.len(),
                parts == spec_split(s@, ','),
                forall|m: int|
                    0 <= m < pieces@.len() ==> #[trigger] pieces@[m].0 <= pieces@[m].1
                        <= cs@.len() && cs@.subrange(pieces@[m].0 as int, pieces@[m].1 as int)
                        == parts[m],
                spec_parse_list(parts, 0) == out@.map_values(|e: Extension| e@) + spec_parse_list(
                    parts,
                    k as int,
                ),
            decreases pieces@.len() - k,
        {
            let (a, b) = pieces[k];
            let piece = copy_range(cs.as_slice(), a, b);
            let ghost old_out = out@;
            match parse_one(piece.as_slice()) {
                Some(e) => {
                    out.push(e);
                    proof {
                        assert(out@.map_values(|e: Extension| e@) =~= old_out.map_values(
                            |e: Extension| e@,
                        ).push(e@));
                        assert(old_out.map_values(|e: Extension| e@) + (seq![e@]
                            + spec_parse_list(parts, k + 1)) =~= out@.map_values(
                            |e: Extension| e@,
                        ) + spec_parse_list(parts, k + 1));
                    }
                },
                None => {},
            }
            k = k + 1;
        }
        assert(out@.map_values(|e: Extension| e@) + Seq::<ExtSpec>::empty() =~= out@.map_values(
            |e: Extension| e@,
        ));
        out
    }
}

/// The reason for the first element, from piece `k` on, that is not empty
/// and breaks the RFC 6455 Section 9.1 grammar.
pub open spec fn spec_strict_error(parts: Seq<Seq<char>>, k: int) -> Option<Seq<char>>
    decreases parts.len() - k,
{
    if k >= parts.len() || k < 0 {
        None
    } else if trim(parts[k]).len() > 0 && !crate::handshake::spec_valid_extension_entry(trim(parts[k])) {
        Some(crate::handshake::entry_error(trim(parts[k])))
    } else {
        spec_strict_error(parts, k + 1)
    }
}

impl Extension {
    /// Parses a `Sec-WebSocket-Extensions` value, refusing it when an element
    /// breaks the RFC 6455 Section 9.1 grammar (a token name and `;`
    /// parameters whose values are tokens or quoted tokens). Empty elements
    /// are skipped.
    pub fn parse_strict(s: &str) -> (r: Result<Vec<Extension>, crate::error::Error>)
        ensures
            match spec_strict_error(spec_split(s@, ','), 0) {
                None => r matches Ok(v) && v@.map_values(|e: Extension| e@) == spec_parse_extensions(s@),
                Some(m) => r matches Err(e) && e.kind == crate::error::ErrorKind::HandshakeRejected
                    && e.reason@ == m,
            },
    {
        let cs = str_chars(s);
        let pieces = split_respecting_quotes(cs.as_slice(), ',');
        let ghost parts = spec_split(s@, ',');
        let mut k: usize = 0;
        while k < pieces.len()
            invariant
                k <= pieces@.len(),
                cs@ == s@,
                pieces@.len() == parts.len(),
                parts == spec_split(s@, ','),
                forall|m: int|
                    0 <= m < pieces@.len() ==> #[trigger] pieces@[m].0 <= pieces@[m].1
                        <= cs@.len() && cs@.subrange(pieces@[m].0 as int, pieces@[m].1 as int)
                        == parts[m],
                spec_strict_error(parts, 0) == spec_strict_error(parts, k as int),
            decreases pieces@.len() - k,
        {
            let (a, b) = pieces[k];
            let (lo, hi) = trim_range(cs.as_slice(), a, b);
            proof {
                assert(cs@.subrange(a as int, b as int) == parts[k as int]);
            }
            if lo < hi {
                let element = string_from_range(cs.as_slice(), lo, hi);
                if let Err(e) = crate::handshake::validate_extension_entry(element.as_str()) {
                    return Err(e);
                }
            }
            k = k + 1;
        }
        Ok(Extension::parse(s))
    }
}

/// The text of one parameter: `; name` or `; name=value`.
pub open spec fn spec_encode_param(p: ParamSpec) -> Seq<char> {
    seq![';', ' '] + p.name + match p.value {
        Some(v) => seq!['='] + v,
        None => Seq::empty(),
    }
}

/// The text of a parameter list.
pub open spec fn spec_encode_params(ps: Seq<ParamSpec>) -> Seq<char>
    decreases ps.len(),
{
    if ps.len() == 0 {
        Seq::empty()
    } else {
        spec_encode_params(ps.drop_last()) + spec_encode_param(ps.last())
    }
}

/// The text of an extension.
pub open spec fn spec_encode_extension(e: ExtSpec) -> Seq<char> {
    e.name + spec_encode_params(e.params)
}

// ---------------------------------------------------------------------------
// Reading back what `encode` wrote
// ---------------------------------------------------------------------------

/// A parameter whose name, and value if any, are tokens.
pub open spec fn token_param(p: ParamSpec) -> bool {
    is_token(p.name) && (p.value matches Some(v) ==> is_token(v))
}

/// An extension whose name, parameter names and parameter values are tokens:
/// the extensions that `encode` writes without any quoting.
pub open spec fn is_token_extension(e: ExtSpec) -> bool {
    &&& is_token(e.name)
    &&& forall|i: int| 0 <= i < e.params.len() ==> #[trigger] token_param(e.params[i])
}

/// The text of a parameter after its `;`: ` name` or ` name=value`.
pub open spec fn param_piece(p: ParamSpec) -> Seq<char> {
    seq![' '] + p.name + match p.value {
        Some(v) => seq!['='] + v,
        None => Seq::empty(),
    }
}

spec fn piece_char(c: char) -> bool {
    is_tchar(c) || c == ' ' || c == '='
}

spec fn encoded_char(c: char) -> bool {
    piece_char(c) || c == ';'
}

/// From `j` on `s` holds neither `d` nor `"`: the rest is a single piece.
proof fn lemma_split_plain(s: Seq<char>, d: char, j: int, start: int)
    requires
        0 <= start <= j <= s.len(),
        forall|k: int| j <= k < s.len() ==> #[trigger] s[k] != d && s[k] != '"',
    ensures
        split_from(s, d, j, QuoteState::Outside, start) == seq![s.subrange(start, s.len() as int)],
    decreases s.len() - j,
{
    if j < s.len() {
        lemma_split_plain(s, d, j + 1, start);
    }
}

/// Appending `d` and a plain `t` to a quote-free `s` appends `t` as one more piece.
proof fn lemma_split_append(s: Seq<char>, t: Seq<char>, d: char, j: int, start: int)
    requires
        0 <= start <= j <= s.len(),
        forall|k: int| 0 <= k < s.len() ==> #[trigger] s[k] != '"',
        forall|k: int| 0 <= k < t.len() ==> #[trigger] t[k] != d && t[k] != '"',
    ensures
        split_from(s + seq![d] + t, d, j, QuoteState::Outside, start) == split_from(
            s,
            d,
            j,
            QuoteState::Outside,
            start,
        ) + seq![t],
    decreases s.len() - j,
{
    let x = s + seq![d] + t;
    assert(x.subrange(start, j) =~= s.subrange(start, j));
    if j == s.len() {
        assert forall|k: int| j + 1 <= k < x.len() implies #[trigger] x[k] != d && x[k] != '"' by {
            assert(x[k] == t[k - j - 1]);
        }
        lemma_split_plain(x, d, j + 1, j + 1);
        assert(x.subrange(j + 1, x.len() as int) =~= t);
        assert(x[j] == d);
    } else if s[j] == d {
        assert(x[j] == s[j]);
        lemma_split_append(s, t, d, j + 1, j + 1);
        let a = seq![s.subrange(start, j)];
        let b = split_from(s, d, j + 1, QuoteState::Outside, j + 1);
        assert(a + (b + seq![t]) =~= (a + b) + seq![t]);
    } else {
        assert(x[j] == s[j]);
        lemma_split_append(s, t, d, j + 1, start);
    }
}

proof fn lemma_trim_token(s: Seq<char>)
    requires
        is_token(s),
    ensures
        trim(s) == s,
{
    assert(is_tchar(s[0]));
    assert(is_tchar(s[s.len() - 1]));
}

proof fn lemma_piece_chars(p: ParamSpec)
    requires
        token_param(p),
    ensures
        forall|m: int| 0 <= m < param_piece(p).len() ==> #[trigger] piece_char(param_piece(p)[m]),
        is_tchar(param_piece(p).last()),
{
    let piece = param_piece(p);
    let n = p.name.len() as int;
    assert forall|m: int| 0 <= m < piece.len() implies #[trigger] piece_char(piece[m]) by {
        if m == 0 {
        } else if m <= n {
            assert(piece[m] == p.name[m - 1]);
            assert(is_tchar(p.name[m - 1]));
        } else {
            let v = p.value->0;
            if m == n + 1 {
                assert(piece[m] == '=');
            } else {
                assert(piece[m] == v[m - n - 2]);
                assert(is_tchar(v[m - n - 2]));
            }
        }
    }
    match p.value {
        Some(v) => {
            assert(piece.last() == v[v.len() - 1]);
            assert(is_tchar(v[v.len() - 1]));
        },
        None => {
            assert(piece.last() == p.name[n - 1]);
            assert(is_tchar(p.name[n - 1]));
        },
    }
}

proof fn lemma_encoded_chars(name: Seq<char>, ps: Seq<ParamSpec>)
    requires
        is_token(name),
        forall|i: int| 0 <= i < ps.len() ==> #[trigger] token_param(ps[i]),
    ensures
        forall|k: int|
            0 <= k < (name + spec_encode_params(ps)).len() ==> #[trigger] encoded_char(
                (name + spec_encode_params(ps))[k],
            ),
        (name + spec_encode_params(ps)).len() > 0,
        is_tchar((name + spec_encode_params(ps))[0]),
        is_tchar((name + spec_encode_params(ps)).last()),
    decreases ps.len(),
{
    let x = name + spec_encode_params(ps);
    if ps.len() == 0 {
        assert(x =~= name);
        assert(is_tchar(name[0]));
        assert(is_tchar(name[name.len() - 1]));
        assert forall|k: int| 0 <= k < x.len() implies #[trigger] encoded_char(x[k]) by {
            assert(is_tchar(name[k]));
        }
    } else {
        let s = name + spec_encode_params(ps.drop_last());
        let t = param_piece(ps.last());
        lemma_encoded_chars(name, ps.drop_last());
        assert(token_param(ps[ps.len() - 1]));
        lemma_piece_chars(ps.last());
        assert(x =~= s + seq![';'] + t);
        assert forall|k: int| 0 <= k < x.len() implies #[trigger] encoded_char(x[k]) by {
            if k < s.len() {
                assert(x[k] == s[k]);
            } else if k == s.len() {
            } else {
                assert(x[k] == t[k - s.len() - 1]);
                assert(piece_char(t[k - s.len() - 1]));
            }
        }
        assert(x[0] == s[0]);
        assert(x.last() == t.last());
    }
}

/// The `;`-pieces of an encoded extension: its name, then one piece per
/// parameter.
proof fn lemma_split_encoded(name: Seq<char>, ps: Seq<ParamSpec>)
    requires
        is_token(name),
        forall|i: int| 0 <= i < ps.len() ==> #[trigger] token_param(ps[i]),
    ensures
        spec_split(name + spec_encode_params(ps), ';') == seq![name] + ps.map_values(
            |p: ParamSpec| param_piece(p),
        ),
    decreases ps.len(),
{
    if ps.len() == 0 {
        assert(name + spec_encode_params(ps) =~= name);
        assert forall|k: int| 0 <= k < name.len() implies #[trigger] name[k] != ';' && name[k]
            != '"' by {
            assert(is_tchar(name[k]));
        }
        lemma_split_plain(name, ';', 0, 0);
        assert(name.subrange(0, name.len() as int) =~= name);
        assert(seq![name] + ps.map_values(|p: ParamSpec| param_piece(p)) =~= seq![name]);
    } else {
        let s = name + spec_encode_params(ps.drop_last());
        let t = param_piece(ps.last());
        lemma_split_encoded(name, ps.drop_last());
        lemma_encoded_chars(name, ps.drop_last());
        assert(token_param(ps[ps.len() - 1]));
        lemma_piece_chars(ps.last());
        assert forall|k: int| 0 <= k < s.len() implies #[trigger] s[k] != '"' by {
            assert(encoded_char(s[k]));
        }
        assert forall|k: int| 0 <= k < t.len() implies #[trigger] t[k] != ';' && t[k] != '"' by {
            assert(piece_char(t[k]));
        }
        lemma_split_append(s, t, ';', 0, 0);
        assert(name + spec_encode_params(ps) =~= s + seq![';'] + t);
        assert(ps.map_values(|p: ParamSpec| param_piece(p)) =~= ps.drop_last().map_values(
            |p: ParamSpec| param_piece(p),
        ).push(t));
        assert(seq![name] + ps.map_values(|p: ParamSpec| param_piece(p)) =~= (seq![name]
            + ps.drop_last().map_values(|p: ParamSpec| param_piece(p))) + seq![t]);
    }
}

proof fn lemma_piece_trim(p: ParamSpec)
    requires
        token_param(p),
    ensures
        trim(param_piece(p)) == param_piece(p).drop_first(),
{
    let piece = param_piece(p);
    let body = piece.drop_first();
    lemma_piece_chars(p);
    assert(is_tchar(p.name[0]));
    assert(body[0] == p.name[0]);
    assert(trim_start(body) == body);
    assert(trim_start(piece) == trim_start(body));
    assert(body.last() == piece.last());
    assert(trim_end(body) == body);
}

proof fn lemma_find_equals(name: Seq<char>, v: Seq<char>)
    requires
        is_token(name),
    ensures
        find_char(name + seq!['='] + v, '=') == Some(name.len() as int),
{
    let body = name + seq!['='] + v;
    let n = name.len() as int;
    assert(body[n] == '=');
    assert forall|j: int| 0 <= j < n implies body[j] != '=' by {
        assert(body[j] == name[j]);
        assert(is_tchar(name[j]));
    }
    let pred = |i: int| 0 <= i < body.len() && body[i] == '=' && forall|j: int| 0 <= j < i ==> body[j] != '=';
    assert(pred(n));
    let ch = choose|i: int|
        0 <= i < body.len() && body[i] == '=' && forall|j: int| 0 <= j < i ==> body[j] != '=';
    assert(pred(ch));
    if ch < n {
        assert(body[ch] != '=');
    } else if ch > n {
        assert(body[n] != '=');
    }
}

/// A token read as a parameter value is itself.
proof fn lemma_token_value(v: Seq<char>)
    requires
        is_token(v),
    ensures
        spec_param_value(v) == Some(v),
{
    assert(is_tchar(v[0]));
    assert(v[0] != '"');
}

proof fn lemma_find_no_equals(name: Seq<char>)
    requires
        is_token(name),
    ensures
        find_char(name, '=') is None,
{
    assert forall|i: int| 0 <= i < name.len() implies name[i] != '=' by {
        assert(is_tchar(name[i]));
    }
}

#[verifier::spinoff_prover]
#[verifier::rlimit(40)]
proof fn lemma_valued_piece(name: Seq<char>, v: Seq<char>)
    requires
        is_token(name),
        is_token(v),
    ensures
        spec_param_piece(param_piece(ParamSpec { name, value: Some(v) })) == Some(
            Some(ParamSpec { name, value: Some(v) }),
        ),
{
    let p = ParamSpec { name, value: Some(v) };
    let body = name + seq!['='] + v;
    let n = name.len() as int;
    lemma_piece_trim(p);
    assert(param_piece(p).drop_first() =~= body);
    let t = trim(param_piece(p));
    assert(t == body);
    lemma_find_equals(name, v);
    assert(find_char(t, '=') == Some(n));
    assert(t.subrange(n + 1, t.len() as int) =~= v);
    assert(t.take(n) =~= name);
    lemma_trim_token(v);
    lemma_trim_token(name);
    lemma_token_value(v);
    assert(spec_param_value(trim(t.subrange(n + 1, t.len() as int))) == Some(v));
    assert(trim(t.take(n)) == name);
}

proof fn lemma_flag_piece(name: Seq<char>)
    requires
        is_token(name),
    ensures
        spec_param_piece(param_piece(ParamSpec { name, value: None })) == Some(
            Some(ParamSpec { name, value: None }),
        ),
{
    let p = ParamSpec { name, value: None };
    lemma_piece_trim(p);
    assert(param_piece(p).drop_first() =~= name);
    lemma_find_no_equals(name);
}

/// The piece of a token parameter reads back as that parameter.
proof fn lemma_piece_parses(p: ParamSpec)
    requires
        token_param(p),
    ensures
        spec_param_piece(param_piece(p)) == Some(Some(p)),
{
    match p.value {
        Some(v) => {
            lemma_valued_piece(p.name, v);
            assert(p == ParamSpec { name: p.name, value: Some(v) });
        },
        None => {
            lemma_flag_piece(p.name);
            assert(p == ParamSpec { name: p.name, value: None });
        },
    }
}

proof fn lemma_parse_pieces(ps: Seq<ParamSpec>, parts: Seq<Seq<char>>, k: int)
    requires
        parts.len() == ps.len() + 1,
        1 <= k <= parts.len(),
        forall|i: int|
            1 <= i < parts.len() ==> spec_param_piece(#[trigger] parts[i]) == Some(
                Some(ps[i - 1]),
            ),
    ensures
        spec_parse_params(parts, k) == Some(ps.subrange(k - 1, ps.len() as int)),
    decreases parts.len() - k,
{
    if k < parts.len() {
        lemma_parse_pieces(ps, parts, k + 1);
        assert(spec_param_piece(parts[k]) == Some(Some(ps[k - 1])));
        assert(seq![ps[k - 1]] + ps.subrange(k, ps.len() as int) =~= ps.subrange(
            k - 1,
            ps.len() as int,
        ));
    } else {
        assert(ps.subrange(k - 1, ps.len() as int) =~= Seq::<ParamSpec>::empty());
    }
}

/// What [`Extension::encode`] writes, [`Extension::parse`] reads back as the
/// same single extension, for every extension whose name, parameter names
/// and parameter values are tokens.
pub proof fn lemma_encode_parse_roundtrip(e: ExtSpec)
    requires
        is_token_extension(e),
    ensures
        spec_parse_extensions(spec_encode_extension(e)) == seq![e],
{
    let s = spec_encode_extension(e);
    lemma_encoded_chars(e.name, e.params);
    assert forall|k: int| 0 <= k < s.len() implies #[trigger] s[k] != ',' && s[k] != '"' by {
        assert(encoded_char(s[k]));
    }
    lemma_split_plain(s, ',', 0, 0);
    assert(s.subrange(0, s.len() as int) =~= s);
    assert(spec_split(s, ',') == seq![s]);
    assert(trim_start(s) == s);
    assert(trim_end(s) == s);
    assert(trim(s) == s);
    lemma_split_encoded(e.name, e.params);
    let parts = spec_split(s, ';');
    assert(parts[0] == e.name);
    lemma_trim_token(e.name);
    assert forall|i: int| 1 <= i < parts.len() implies spec_param_piece(#[trigger] parts[i])
        == Some(Some(e.params[i - 1])) by {
        assert(parts[i] == param_piece(e.params[i - 1]));
        assert(token_param(e.params[i - 1]));
        lemma_piece_parses(e.params[i - 1]);
    }
    lemma_parse_pieces(e.params, parts, 1);
    assert(e.params.subrange(0, e.params.len() as int) =~= e.params);
    assert(spec_parse_extension(s) == Some(e));
    assert(spec_parse_list(seq![s], 1) == Seq::<ExtSpec>::empty());
    assert(seq![e] + Seq::<ExtSpec>::empty() =~= seq![e]);
}


// ---------------------------------------------------------------------------
// permessage-deflate parameters (RFC 7692)
// ---------------------------------------------------------------------------

/// Whose extension text is being read.
#[derive(Debug, Clone, Copy, PartialEq, Eq, Structural)]
pub enum ExtensionParseContext {
    /// A client reads the server's response.
    ClientResponse,
    /// A server reads the client's offer.
    ServerRequest,
}

/// Why a permessage-deflate element was rejected.
#[derive(Debug, Clone, PartialEq, Eq)]
pub enum ExtensionParseError {
    /// The extension is not permessage-deflate.
    NotDeflate,
    /// A parameter that RFC 7692 does not define.
    UnknownParameter(String),
    /// A parameter given twice.
    DuplicateParameter(String),
    /// A parameter that needs a value has none.
    MissingValue(String),
    /// A parameter that takes no value has one.
    UnexpectedValue(String),
    /// A value out of range or not a number.
    InvalidValue(String),
}

/// The content of an [`ExtensionParseError`].
pub enum ParseErrorSpec {
    NotDeflate,
    UnknownParameter(Seq<char>),
    DuplicateParameter(Seq<char>),
    MissingValue(Seq<char>),
    UnexpectedValue(Seq<char>),
    InvalidValue(Seq<char>),
}

impl View for ExtensionParseError {
    type V = ParseErrorSpec;

    open spec fn view(&self) -> ParseErrorSpec {
        match self {
            ExtensionParseError::NotDeflate => ParseErrorSpec::NotDeflate,
            ExtensionParseError::UnknownParameter(s) => ParseErrorSpec::UnknownParameter(s@),
            ExtensionParseError::DuplicateParameter(s) => ParseErrorSpec::DuplicateParameter(s@),
            ExtensionParseError::MissingValue(s) => ParseErrorSpec::MissingValue(s@),
            ExtensionParseError::UnexpectedValue(s) => ParseErrorSpec::UnexpectedValue(s@),
            ExtensionParseError::InvalidValue(s) => ParseErrorSpec::InvalidValue(s@),
        }
    }
}

/// The description of a rejected element.
pub open spec fn parse_error_text(e: ParseErrorSpec) -> Seq<char> {
    match e {
        ParseErrorSpec::NotDeflate => "extension is not permessage-deflate"@,
        ParseErrorSpec::UnknownParameter(n) => "unknown parameter: "@ + n,
        ParseErrorSpec::DuplicateParameter(n) => "duplicate parameter: "@ + n,
        ParseErrorSpec::MissingValue(n) => "missing value: "@ + n,
        ParseErrorSpec::UnexpectedValue(n) => "unexpected value: "@ + n,
        ParseErrorSpec::InvalidValue(n) => "invalid value: "@ + n,
    }
}

impl ExtensionParseError {
    /// A human readable description.
    pub fn to_string(&self) -> (r: String)
        ensures
            r@ == parse_error_text(self@),
    {
        match self {
            ExtensionParseError::NotDeflate => string_from_str("extension is not permessage-deflate"),
            ExtensionParseError::UnknownParameter(n) => concat_str("unknown parameter: ", n.as_str()),
            ExtensionParseError::DuplicateParameter(n) => concat_str(
                "duplicate parameter: ",
                n.as_str(),
            ),
            ExtensionParseError::MissingValue(n) => concat_str("missing value: ", n.as_str()),
            ExtensionParseError::UnexpectedValue(n) => concat_str("unexpected value: ", n.as_str()),
            ExtensionParseError::InvalidValue(n) => concat_str("invalid value: ", n.as_str()),
        }
    }
}

/// permessage-deflate configuration (RFC 7692).
#[derive(Debug, Clone, Copy, PartialEq, Eq, Structural)]
pub struct PerMessageDeflateConfig {
    /// Server LZ77 window bits (8-15).
    pub server_max_window_bits: Option<u8>,
    /// Client LZ77 window bits (8-15).
    pub client_max_window_bits: Option<u8>,
    /// The server resets its compression context after each message.
    pub server_no_context_takeover: bool,
    /// The client resets its compression context after each message.
    pub client_no_context_takeover: bool,
}

pub open spec fn default_config() -> PerMessageDeflateConfig {
    PerMessageDeflateConfig {
        server_max_window_bits: None,
        client_max_window_bits: None,
        server_no_context_takeover: false,
        client_no_context_takeover: false,
    }
}

impl Default for PerMessageDeflateConfig {
    fn default() -> (r: PerMessageDeflateConfig)
        ensures
            r == default_config(),
    {
        PerMessageDeflateConfig {
            server_max_window_bits: None,
            client_max_window_bits: None,
            server_no_context_takeover: false,
            client_no_context_takeover: false,
        }
    }
}

pub open spec fn pmd_name() -> Seq<char> {
    "permessage-deflate"@
}

pub open spec fn snct_name() -> Seq<char> {
    "server_no_context_takeover"@
}

pub open spec fn cnct_name() -> Seq<char> {
    "client_no_context_takeover"@
}

pub open spec fn smwb_name() -> Seq<char> {
    "server_max_window_bits"@
}

pub open spec fn cmwb_name() -> Seq<char> {
    "client_max_window_bits"@
}

/// `bits` clamped to 8..=15.
pub open spec fn clamp_bits(bits: u8) -> u8 {
    if bits < 8 {
        8
    } else if bits > 15 {
        15
    } else {
        bits
    }
}

pub open spec fn in_window_range(b: u8) -> bool {
    8 <= b && b <= 15
}

/// The message for a window-bits value that is not a number.
pub open spec fn msg_not_number(param: Seq<char>, v: Seq<char>) -> Seq<char> {
    param + ": invalid value '"@ + v + "'"@
}

/// The message for a window-bits value out of 8..=15.
pub open spec fn msg_out_of_range(param: Seq<char>, b: u8) -> Seq<char> {
    param + ": "@ + decimal(b as nat) + " is out of range (8-15)"@
}

/// The outcome of reading a window-bits value: the bits, or the error.
pub open spec fn spec_window_value(param: Seq<char>, v: Seq<char>) -> Result<u8, ParseErrorSpec> {
    match spec_parse_u8(v) {
        None => Err(ParseErrorSpec::InvalidValue(msg_not_number(param, v))),
        Some(b) => if in_window_range(b) {
            Ok(b)
        } else {
            Err(ParseErrorSpec::InvalidValue(msg_out_of_range(param, b)))
        },
    }
}

/// Strict reading of the parameters from `k` on (RFC 7692 Section 7).
pub open spec fn spec_validate_params(
    ps: Seq<ParamSpec>,
    ctx: ExtensionParseContext,
    k: int,
    cfg: PerMessageDeflateConfig,
) -> Result<PerMessageDeflateConfig, ParseErrorSpec>
    decreases ps.len() - k,
{
    if k >= ps.len() || k < 0 {
        Ok(cfg)
    } else {
        let p = ps[k];
        if !(p.name == snct_name() || p.name == cnct_name() || p.name == smwb_name() || p.name
            == cmwb_name()) {
            Err(ParseErrorSpec::UnknownParameter(p.name))
        } else if exists|j: int| 0 <= j < k && #[trigger] ps[j].name == p.name {
            Err(ParseErrorSpec::DuplicateParameter(p.name))
        } else if p.name == snct_name() {
            if p.value is Some {
                Err(ParseErrorSpec::UnexpectedValue(snct_name()))
            } else {
                spec_validate_params(
                    ps,
                    ctx,
                    k + 1,
                    PerMessageDeflateConfig { server_no_context_takeover: true, ..cfg },
                )
            }
        } else if p.name == cnct_name() {
            if p.value is Some {
                Err(ParseErrorSpec::UnexpectedValue(cnct_name()))
            } else {
                spec_validate_params(
                    ps,
                    ctx,
                    k + 1,
                    PerMessageDeflateConfig { client_no_context_takeover: true, ..cfg },
                )
            }
        } else if p.name == smwb_name() {
            match p.value {
                Some(v) => match spec_window_value(smwb_name(), v) {
                    Err(e) => Err(e),
                    Ok(b) => spec_validate_params(
                        ps,
                        ctx,
                        k + 1,
                        PerMessageDeflateConfig { server_max_window_bits: Some(b), ..cfg },
                    ),
                },
                None => Err(ParseErrorSpec::MissingValue(smwb_name())),
            }
        } else {
            match p.value {
                Some(v) => match spec_window_value(cmwb_name(), v) {
                    Err(e) => Err(e),
                    Ok(b) => spec_validate_params(
                        ps,
                        ctx,
                        k + 1,
                        PerMessageDeflateConfig { client_max_window_bits: Some(b), ..cfg },
                    ),
                },
                None => if ctx == ExtensionParseContext::ClientResponse {
                    Err(ParseErrorSpec::MissingValue(cmwb_name()))
                } else {
                    spec_validate_params(
                        ps,
                        ctx,
                        k + 1,
                        PerMessageDeflateConfig { client_max_window_bits: Some(15), ..cfg },
                    )
                },
            }
        }
    }
}

/// Strict reading of a permessage-deflate element.
pub open spec fn spec_from_extension_validated(e: ExtSpec, ctx: ExtensionParseContext) -> Result<
    PerMessageDeflateConfig,
    ParseErrorSpec,
> {
    if e.name != pmd_name() {
        Err(ParseErrorSpec::NotDeflate)
    } else {
        spec_validate_params(e.params, ctx, 0, default_config())
    }
}

/// Lenient reading of the parameters from `k` on: unknown parameters are
/// ignored, values of the no-context-takeover flags are ignored, a later
/// parameter overrides an earlier one, and only a window-bits value that is
/// not a number in 8..=15 is rejected.
pub open spec fn spec_lenient_params(ps: Seq<ParamSpec>, k: int, cfg: PerMessageDeflateConfig) -> Option<
    PerMessageDeflateConfig,
>
    decreases ps.len() - k,
{
    if k >= ps.len() || k < 0 {
        Some(cfg)
    } else {
        let p = ps[k];
        if p.name == snct_name() {
            spec_lenient_params(
                ps,
                k + 1,
                PerMessageDeflateConfig { server_no_context_takeover: true, ..cfg },
            )
        } else if p.name == cnct_name() {
            spec_lenient_params(
                ps,
                k + 1,
                PerMessageDeflateConfig { client_no_context_takeover: true, ..cfg },
            )
        } else if p.name == smwb_name() {
            match p.value {
                Some(v) => match spec_parse_u8(v) {
                    Some(b) => if in_window_range(b) {
                        spec_lenient_params(
                            ps,
                            k + 1,
                            PerMessageDeflateConfig { server_max_window_bits: Some(b), ..cfg },
                        )
                    } else {
                        None
                    },
                    None => None,
                },
                None => spec_lenient_params(ps, k + 1, cfg),
            }
        } else if p.name == cmwb_name() {
            match p.value {
                Some(v) => match spec_parse_u8(v) {
                    Some(b) => if in_window_range(b) {
                        spec_lenient_params(
                            ps,
                            k + 1,
                            PerMessageDeflateConfig { client_max_window_bits: Some(b), ..cfg },
                        )
                    } else {
                        None
                    },
                    None => None,
                },
                None => spec_lenient_params(
                    ps,
                    k + 1,
                    PerMessageDeflateConfig { client_max_window_bits: Some(15), ..cfg },
                ),
            }
        } else {
            spec_lenient_params(ps, k + 1, cfg)
        }
    }
}

/// The parameters `to_extension` writes, in order.
pub open spec fn spec_config_params(c: PerMessageDeflateConfig) -> Seq<ParamSpec> {
    (if c.server_no_context_takeover {
        seq![ParamSpec { name: snct_name(), value: None }]
    } else {
        Seq::empty()
    }) + (if c.client_no_context_takeover {
        seq![ParamSpec { name: cnct_name(), value: None }]
    } else {
        Seq::empty()
    }) + (match c.server_max_window_bits {
        Some(b) => seq![ParamSpec { name: smwb_name(), value: Some(decimal(b as nat)) }],
        None => Seq::empty(),
    }) + (match c.client_max_window_bits {
        Some(b) => seq![ParamSpec { name: cmwb_name(), value: Some(decimal(b as nat)) }],
        None => Seq::empty(),
    })
}

/// The result of merging a client offer with the server's settings.
pub open spec fn spec_negotiate(client: PerMessageDeflateConfig, server: PerMessageDeflateConfig) -> PerMessageDeflateConfig {
    PerMessageDeflateConfig {
        server_max_window_bits: None,
        client_max_window_bits: match (client.client_max_window_bits, server.client_max_window_bits) {
            (Some(c), Some(s)) => Some(if c <= s { c } else { s }),
            (Some(c), None) => Some(c),
            (None, _) => None,
        },
        server_no_context_takeover: client.server_no_context_takeover
            || server.server_no_context_takeover,
        client_no_context_takeover: client.client_no_context_takeover
            || server.client_no_context_takeover,
    }
}

/// What negotiation agrees to never asks for more than either side: the
/// server window is left at its default, a client window appears only when
/// the client offered one and is at most both sides' values, and each
/// no-context-takeover flag is set exactly when one side asks for it.
pub proof fn lemma_negotiate_within_offers(client: PerMessageDeflateConfig, server: PerMessageDeflateConfig)
    ensures
        spec_negotiate(client, server).server_max_window_bits is None,
        spec_negotiate(client, server).client_max_window_bits is Some <==> client.client_max_window_bits is Some,
        spec_negotiate(client, server).client_max_window_bits is Some ==> spec_negotiate(client, server).client_max_window_bits->0
            <= client.client_max_window_bits->0,
        spec_negotiate(client, server).client_max_window_bits is Some && server.client_max_window_bits is Some
            ==> spec_negotiate(client, server).client_max_window_bits->0 <= server.client_max_window_bits->0,
        spec_negotiate(client, server).server_no_context_takeover == (client.server_no_context_takeover
            || server.server_no_context_takeover),
        spec_negotiate(client, server).client_no_context_takeover == (client.client_no_context_takeover
            || server.client_no_context_takeover),
{
}

/// Window sizes, where given, are in 8..=15 (RFC 7692 Section 7.1.2).
pub open spec fn window_bits_ok(c: PerMessageDeflateConfig) -> bool {
    &&& c.server_max_window_bits is Some ==> in_window_range(c.server_max_window_bits->0)
    &&& c.client_max_window_bits is Some ==> in_window_range(c.client_max_window_bits->0)
}

proof fn lemma_window_value_of_decimal(name: Seq<char>, b: u8)
    requires
        in_window_range(b),
    ensures
        spec_window_value(name, decimal(b as nat)) == Ok::<u8, ParseErrorSpec>(b),
{
    let n = b as nat;
    let d = decimal(n);
    if n < 10 {
        assert(d == seq![crate::text::digit_char(n)]);
        assert(crate::text::digit_value(crate::text::digit_char(n)) == n);
        assert(crate::text::strip_plus(d) == d);
        assert(d.drop_last() =~= Seq::<char>::empty());
        assert(crate::text::digits_value(Seq::<char>::empty()) == 0);
        assert(d.last() == crate::text::digit_char(n));
        assert(crate::text::digits_value(d) == n);
    } else {
        assert(decimal(n / 10) == seq![crate::text::digit_char(1)]);
        assert(d == seq![crate::text::digit_char(1), crate::text::digit_char((n % 10) as nat)]);
        assert(crate::text::digit_value(crate::text::digit_char(1)) == 1);
        assert(crate::text::digit_value(crate::text::digit_char((n % 10) as nat)) == n % 10);
        assert(crate::text::strip_plus(d) == d);
        let one = seq![crate::text::digit_char(1)];
        assert(d.drop_last() =~= one);
        assert(one.drop_last() =~= Seq::<char>::empty());
        assert(crate::text::digits_value(Seq::<char>::empty()) == 0);
        assert(one.last() == crate::text::digit_char(1));
        assert(crate::text::digits_value(one) == 1);
        assert(d.last() == crate::text::digit_char((n % 10) as nat));
        assert(crate::text::digits_value(d.drop_last()) == 1);
        assert(crate::text::digits_value(d) == n);
    }
    assert(crate::text::all_digits(d));
}

proof fn lemma_window_decimal_token(b: u8)
    requires
        in_window_range(b),
    ensures
        is_token(decimal(b as nat)),
{
    let n = b as nat;
    let d = decimal(n);
    if n < 10 {
        assert(d == seq![crate::text::digit_char(n)]);
        assert(is_tchar(crate::text::digit_char(n)));
    } else {
        assert(decimal(n / 10) == seq![crate::text::digit_char(1)]);
        assert(d == seq![crate::text::digit_char(1), crate::text::digit_char((n % 10) as nat)]);
        assert(is_tchar(crate::text::digit_char(1)));
        assert(is_tchar(crate::text::digit_char((n % 10) as nat)));
    }
}

/// The permessage-deflate element of a configuration with window sizes in
/// range is made of tokens only, so `encode` writes it without quoting.
pub proof fn lemma_config_token_extension(c: PerMessageDeflateConfig)
    requires
        window_bits_ok(c),
    ensures
        is_token_extension(ExtSpec { name: pmd_name(), params: spec_config_params(c) }),
{
    let e = ExtSpec { name: pmd_name(), params: spec_config_params(c) };
    reveal_strlit("permessage-deflate");
    reveal_strlit("server_no_context_takeover");
    reveal_strlit("client_no_context_takeover");
    reveal_strlit("server_max_window_bits");
    reveal_strlit("client_max_window_bits");
    assert(is_token(pmd_name()));
    assert(is_token(snct_name()));
    assert(is_token(cnct_name()));
    assert(is_token(smwb_name()));
    assert(is_token(cmwb_name()));
    if c.server_max_window_bits is Some {
        lemma_window_decimal_token(c.server_max_window_bits->0);
    }
    if c.client_max_window_bits is Some {
        lemma_window_decimal_token(c.client_max_window_bits->0);
    }
    assert forall|i: int| 0 <= i < e.params.len() implies #[trigger] token_param(e.params[i]) by {
    }
}

/// The permessage-deflate element a configuration is sent as reads back as
/// exactly that configuration, in a client's offer and in a server's
/// response alike, whenever its window sizes are in range.
pub proof fn lemma_config_roundtrip(c: PerMessageDeflateConfig, ctx: ExtensionParseContext)
    requires
        window_bits_ok(c),
    ensures
        spec_from_extension_validated(ExtSpec { name: pmd_name(), params: spec_config_params(c) }, ctx)
            == Ok::<PerMessageDeflateConfig, ParseErrorSpec>(c),
{
    reveal_strlit("server_no_context_takeover");
    reveal_strlit("client_no_context_takeover");
    reveal_strlit("server_max_window_bits");
    reveal_strlit("client_max_window_bits");
    let pa = if c.server_no_context_takeover {
        seq![ParamSpec { name: snct_name(), value: None }]
    } else {
        Seq::<ParamSpec>::empty()
    };
    let pb = if c.client_no_context_takeover {
        seq![ParamSpec { name: cnct_name(), value: None }]
    } else {
        Seq::<ParamSpec>::empty()
    };
    let pc = match c.server_max_window_bits {
        Some(b) => seq![ParamSpec { name: smwb_name(), value: Some(decimal(b as nat)) }],
        None => Seq::<ParamSpec>::empty(),
    };
    let pd = match c.client_max_window_bits {
        Some(b) => seq![ParamSpec { name: cmwb_name(), value: Some(decimal(b as nat)) }],
        None => Seq::<ParamSpec>::empty(),
    };
    let ps = spec_config_params(c);
    assert(ps == pa + pb + pc + pd);
    assert(snct_name()[0] == 's' && cnct_name()[0] == 'c');
    assert(smwb_name()[0] == 's' && cmwb_name()[0] == 'c');
    assert(snct_name() != cnct_name());
    assert(snct_name() != smwb_name());
    assert(snct_name() != cmwb_name());
    assert(cnct_name() != smwb_name());
    assert(cnct_name() != cmwb_name());
    assert(smwb_name() != cmwb_name());
    let n0 = pa.len() as int;
    let n1 = n0 + pb.len();
    let n2 = n1 + pc.len();
    let n3 = n2 + pd.len();
    let cfg0 = default_config();
    let cfg1 = PerMessageDeflateConfig { server_no_context_takeover: c.server_no_context_takeover, ..cfg0 };
    let cfg2 = PerMessageDeflateConfig { client_no_context_takeover: c.client_no_context_takeover, ..cfg1 };
    let cfg3 = PerMessageDeflateConfig { server_max_window_bits: c.server_max_window_bits, ..cfg2 };
    let cfg4 = PerMessageDeflateConfig { client_max_window_bits: c.client_max_window_bits, ..cfg3 };
    assert(cfg4 == c);
    assert forall|j: int| 0 <= j < n0 implies #[trigger] ps[j].name == snct_name() by {
        assert(ps[j] == pa[j]);
    }
    assert forall|j: int| n0 <= j < n1 implies #[trigger] ps[j].name == cnct_name() by {
        assert(ps[j] == pb[j - n0]);
    }
    assert forall|j: int| n1 <= j < n2 implies #[trigger] ps[j].name == smwb_name() by {
        assert(ps[j] == pc[j - n1]);
    }
    assert forall|j: int| n2 <= j < n3 implies #[trigger] ps[j].name == cmwb_name() by {
        assert(ps[j] == pd[j - n2]);
    }
    assert(spec_validate_params(ps, ctx, n3, cfg4) == Ok::<PerMessageDeflateConfig, ParseErrorSpec>(cfg4));
    if pd.len() > 0 {
        let b = c.client_max_window_bits->0;
        lemma_window_value_of_decimal(cmwb_name(), b);
        assert(ps[n2] == pd[0]);
        assert(!(exists|j: int| 0 <= j < n2 && #[trigger] ps[j].name == ps[n2].name));
    }
    assert(spec_validate_params(ps, ctx, n2, cfg3) == Ok::<PerMessageDeflateConfig, ParseErrorSpec>(cfg4));
    if pc.len() > 0 {
        let b = c.server_max_window_bits->0;
        lemma_window_value_of_decimal(smwb_name(), b);
        assert(ps[n1] == pc[0]);
        assert(!(exists|j: int| 0 <= j < n1 && #[trigger] ps[j].name == ps[n1].name));
    }
    assert(spec_validate_params(ps, ctx, n1, cfg2) == Ok::<PerMessageDeflateConfig, ParseErrorSpec>(cfg4));
    if pb.len() > 0 {
        assert(ps[n0] == pb[0]);
        assert(!(exists|j: int| 0 <= j < n0 && #[trigger] ps[j].name == ps[n0].name));
    }
    assert(spec_validate_params(ps, ctx, n0, cfg1) == Ok::<PerMessageDeflateConfig, ParseErrorSpec>(cfg4));
    if pa.len() > 0 {
        assert(ps[0] == pa[0]);
    }
    assert(spec_validate_params(ps, ctx, 0, cfg0) == Ok::<PerMessageDeflateConfig, ParseErrorSpec>(cfg4));
}

/// The lenient reading (`from_extension`) reads the permessage-deflate
/// element a configuration is sent as back as exactly that configuration,
/// whenever its window sizes are in range: each no-context-takeover flag
/// and each window size survives.
pub proof fn lemma_lenient_config_roundtrip(c: PerMessageDeflateConfig)
    requires
        window_bits_ok(c),
    ensures
        spec_lenient_params(spec_config_params(c), 0, default_config()) == Some(c),
{
    reveal_strlit("server_no_context_takeover");
    reveal_strlit("client_no_context_takeover");
    reveal_strlit("server_max_window_bits");
    reveal_strlit("client_max_window_bits");
    let pa = if c.server_no_context_takeover {
        seq![ParamSpec { name: snct_name(), value: None }]
    } else {
        Seq::<ParamSpec>::empty()
    };
    let pb = if c.client_no_context_takeover {
        seq![ParamSpec { name: cnct_name(), value: None }]
    } else {
        Seq::<ParamSpec>::empty()
    };
    let pc = match c.server_max_window_bits {
        Some(b) => seq![ParamSpec { name: smwb_name(), value: Some(decimal(b as nat)) }],
        None => Seq::<ParamSpec>::empty(),
    };
    let pd = match c.client_max_window_bits {
        Some(b) => seq![ParamSpec { name: cmwb_name(), value: Some(decimal(b as nat)) }],
        None => Seq::<ParamSpec>::empty(),
    };
    let ps = spec_config_params(c);
    assert(ps == pa + pb + pc + pd);
    lemma_deflate_param_names_distinct();
    let n0 = pa.len() as int;
    let n1 = n0 + pb.len();
    let n2 = n1 + pc.len();
    let n3 = n2 + pd.len();
    let cfg0 = default_config();
    let cfg1 = PerMessageDeflateConfig { server_no_context_takeover: c.server_no_context_takeover, ..cfg0 };
    let cfg2 = PerMessageDeflateConfig { client_no_context_takeover: c.client_no_context_takeover, ..cfg1 };
    let cfg3 = PerMessageDeflateConfig { server_max_window_bits: c.server_max_window_bits, ..cfg2 };
    let cfg4 = PerMessageDeflateConfig { client_max_window_bits: c.client_max_window_bits, ..cfg3 };
    assert(cfg4 == c);
    assert(spec_lenient_params(ps, n3, cfg4) == Some(cfg4));
    if pd.len() > 0 {
        let b = c.client_max_window_bits->0;
        lemma_window_value_of_decimal(cmwb_name(), b);
        assert(spec_parse_u8(decimal(b as nat)) == Some(b));
        assert(ps[n2] == pd[0]);
    }
    assert(spec_lenient_params(ps, n2, cfg3) == Some(cfg4));
    if pc.len() > 0 {
        let b = c.server_max_window_bits->0;
        lemma_window_value_of_decimal(smwb_name(), b);
        assert(spec_parse_u8(decimal(b as nat)) == Some(b));
        assert(ps[n1] == pc[0]);
    }
    assert(spec_lenient_params(ps, n1, cfg2) == Some(cfg4));
    if pb.len() > 0 {
        assert(ps[n0] == pb[0]);
    }
    assert(spec_lenient_params(ps, n0, cfg1) == Some(cfg4));
    if pa.len() > 0 {
        assert(ps[0] == pa[0]);
    }
}

/// The four permessage-deflate parameter names differ from one another.
proof fn lemma_deflate_param_names_distinct()
    ensures
        snct_name() != cnct_name(),
        snct_name() != smwb_name(),
        snct_name() != cmwb_name(),
        cnct_name() != smwb_name(),
        cnct_name() != cmwb_name(),
        smwb_name() != cmwb_name(),
{
    reveal_strlit("server_no_context_takeover");
    reveal_strlit("client_no_context_takeover");
    reveal_strlit("server_max_window_bits");
    reveal_strlit("client_max_window_bits");
    assert(snct_name()[0] == 's' && cnct_name()[0] == 'c');
    assert(smwb_name()[0] == 's' && cmwb_name()[0] == 'c');
    assert(snct_name().len() == 26 && cnct_name().len() == 26);
    assert(smwb_name().len() == 22 && cmwb_name().len() == 22);
}

/// In the lenient reading, a no-context-takeover parameter anywhere in the
/// element sets its flag, whatever its value, and a flag once set stays set.
pub proof fn lemma_lenient_flags(ps: Seq<ParamSpec>, k: int, cfg: PerMessageDeflateConfig)
    requires
        0 <= k,
    ensures
        spec_lenient_params(ps, k, cfg) matches Some(r) ==> {
            &&& (cfg.server_no_context_takeover || exists|j: int|
                k <= j < ps.len() && (#[trigger] ps[j]).name == "server_no_context_takeover"@)
                ==> r.server_no_context_takeover
            &&& (cfg.client_no_context_takeover || exists|j: int|
                k <= j < ps.len() && (#[trigger] ps[j]).name == "client_no_context_takeover"@)
                ==> r.client_no_context_takeover
        },
    decreases ps.len() - k,
{
    lemma_deflate_param_names_distinct();
    if k < ps.len() {
        let p = ps[k];
        let next = if p.name == snct_name() {
            PerMessageDeflateConfig { server_no_context_takeover: true, ..cfg }
        } else if p.name == cnct_name() {
            PerMessageDeflateConfig { client_no_context_takeover: true, ..cfg }
        } else if p.name == smwb_name() {
            match p.value {
                Some(v) => match spec_parse_u8(v) {
                    Some(b) => PerMessageDeflateConfig { server_max_window_bits: Some(b), ..cfg },
                    None => cfg,
                },
                None => cfg,
            }
        } else if p.name == cmwb_name() {
            match p.value {
                Some(v) => match spec_parse_u8(v) {
                    Some(b) => PerMessageDeflateConfig { client_max_window_bits: Some(b), ..cfg },
                    None => cfg,
                },
                None => PerMessageDeflateConfig { client_max_window_bits: Some(15), ..cfg },
            }
        } else {
            cfg
        };
        lemma_lenient_flags(ps, k + 1, next);
        if spec_lenient_params(ps, k, cfg) is Some {
            assert(spec_lenient_params(ps, k, cfg) == spec_lenient_params(ps, k + 1, next));
            assert(cfg.server_no_context_takeover ==> next.server_no_context_takeover);
            assert(cfg.client_no_context_takeover ==> next.client_no_context_takeover);
            assert(p.name == snct_name() ==> next.server_no_context_takeover);
            assert(p.name == cnct_name() ==> next.client_no_context_takeover);
        }
    }
}

fn name_is(p: &ExtensionParam, lit: &str) -> (r: bool)
    ensures
        r == (p@.name == lit@),
{
    str_eq(p.name.as_str(), lit)
}

/// Reads a window-bits value.
fn window_value(param: &str, v: &String) -> (r: Result<u8, ExtensionParseError>)
    ensures
        match spec_window_value(param@, v@) {
            Ok(b) => r == Ok::<u8, ExtensionParseError>(b),
            Err(e) => r matches Err(re) && re@ == e,
        },
{
    let cs = str_chars(v.as_str());
    match parse_u8(cs.as_slice()) {
        None => {
            let mut msg = concat_str(param, ": invalid value '");
            msg.append(v.as_str());
            msg.append("'");
            Err(ExtensionParseError::InvalidValue(msg))
        },
        Some(bits) => {
            if 8 <= bits && bits <= 15 {
                Ok(bits)
            } else {
                let mut msg = concat_str(param, ": ");
                let d = u8_to_decimal(bits);
                msg.append(d.as_str());
                msg.append(" is out of range (8-15)");
                Err(ExtensionParseError::InvalidValue(msg))
            }
        },
    }
}

impl PerMessageDeflateConfig {
    /// The default configuration: no parameters.
    pub fn new() -> (r: PerMessageDeflateConfig)
        ensures
            r == default_config(),
    {
        PerMessageDeflateConfig::default()
    }

    /// Sets the server window bits, clamped to 8..=15.
    pub fn server_max_window_bits(self, bits: u8) -> (r: PerMessageDeflateConfig)
        ensures
            r == (PerMessageDeflateConfig { server_max_window_bits: Some(clamp_bits(bits)), ..self }),
    {
        let b = if bits < 8 { 8 } else if bits > 15 { 15 } else { bits };
        PerMessageDeflateConfig { server_max_window_bits: Some(b), ..self }
    }

    /// Sets the client window bits, clamped to 8..=15.
    pub fn client_max_window_bits(self, bits: u8) -> (r: PerMessageDeflateConfig)
        ensures
            r == (PerMessageDeflateConfig { client_max_window_bits: Some(clamp_bits(bits)), ..self }),
    {
        let b = if bits < 8 { 8 } else if bits > 15 { 15 } else { bits };
        PerMessageDeflateConfig { client_max_window_bits: Some(b), ..self }
    }

    /// Asks the server not to keep its compression context between messages.
    pub fn server_no_context_takeover(self) -> (r: PerMessageDeflateConfig)
        ensures
            r == (PerMessageDeflateConfig { server_no_context_takeover: true, ..self }),
    {
        PerMessageDeflateConfig { server_no_context_takeover: true, ..self }
    }

    /// Asks the client not to keep its compression context between messages.
    pub fn client_no_context_takeover(self) -> (r: PerMessageDeflateConfig)
        ensures
            r == (PerMessageDeflateConfig { client_no_context_takeover: true, ..self }),
    {
        PerMessageDeflateConfig { client_no_context_takeover: true, ..self }
    }

    /// The configuration as a `permessage-deflate` extension element.
    pub fn to_extension(&self) -> (r: Extension)
        ensures
            r@ == (ExtSpec { name: pmd_name(), params: spec_config_params(*self) }),
    {
        let mut ext = Extension::new("permessage-deflate");
        let ghost mut ps: Seq<ParamSpec> = Seq::empty();
        if self.server_no_context_takeover {
            ext = ext.param("server_no_context_takeover", None);
        }
        if self.client_no_context_takeover {
            ext = ext.param("client_no_context_takeover", None);
        }
        match self.server_max_window_bits {
            Some(bits) => {
                let d = u8_to_decimal(bits);
                ext = ext.param("server_max_window_bits", Some(d.as_str()));
            },
            None => {},
        }
        match self.client_max_window_bits {
            Some(bits) => {
                let d = u8_to_decimal(bits);
                ext = ext.param("client_max_window_bits", Some(d.as_str()));
            },
            None => {},
        }
        assert(ext@.params =~= spec_config_params(*self));
        ext
    }

    /// Lenient reading of a permessage-deflate element: `None` when the name
    /// is not `permessage-deflate` or a window-bits value is not a number in
    /// 8..=15. Superseded by [`Self::from_extension_validated`].
    pub fn from_extension(ext: &Extension) -> (r: Option<PerMessageDeflateConfig>)
        ensures
            r == (if ext@.name != pmd_name() {
                None
            } else {
                spec_lenient_params(ext@.params, 0, default_config())
            }),
    {
        if !str_eq(ext.name.as_str(), "permessage-deflate") {
            return None;
        }
        let mut config = PerMessageDeflateConfig::default();
        let mut i: usize = 0;
        while i < ext.params.len()
            invariant
                i <= ext.params@.len(),
                ext@.name == pmd_name(),
                spec_lenient_params(ext@.params, 0, default_config()) == spec_lenient_params(
                    ext@.params,
                    i as int,
                    config,
                ),
            decreases ext.params@.len() - i,
        {
            let param = &ext.params[i];
            assert(ext@.params[i as int] == param@);
            if name_is(param, "server_no_context_takeover") {
                config.server_no_context_takeover = true;
            } else if name_is(param, "client_no_context_takeover") {
                config.client_no_context_takeover = true;
            } else if name_is(param, "server_max_window_bits") {
                match &param.value {
                    Some(value) => {
                        let cs = str_chars(value.as_str());
                        match parse_u8(cs.as_slice()) {
                            Some(bits) => {
                                if !(8 <= bits && bits <= 15) {
                                    return None;
                                }
                                config.server_max_window_bits = Some(bits);
                            },
                            None => {
                                return None;
                            },
                        }
                    },
                    None => {},
                }
            } else if name_is(param, "client_max_window_bits") {
                match &param.value {
                    Some(value) => {
                        let cs = str_chars(value.as_str());
                        match parse_u8(cs.as_slice()) {
                            Some(bits) => {
                                if !(8 <= bits && bits <= 15) {
                                    return None;
                                }
                                config.client_max_window_bits = Some(bits);
                            },
                            None => {
                                return None;
                            },
                        }
                    },
                    None => {
                        config.client_max_window_bits = Some(15);
                    },
                }
            }
            i = i + 1;
        }
        Some(config)
    }

    /// Strict reading of a permessage-deflate element (RFC 7692 Section 7):
    /// unknown and repeated parameters are errors, the no-context-takeover
    /// flags take no value, window bits must be numbers in 8..=15, and
    /// `server_max_window_bits` always needs a value. A bare
    /// `client_max_window_bits` means 15 in a client's offer and is an error
    /// in a server's response.
    pub fn from_extension_validated(ext: &Extension, context: ExtensionParseContext) -> (r: Result<
        PerMessageDeflateConfig,
        ExtensionParseError,
    >)
        ensures
            match spec_from_extension_validated(ext@, context) {
                Ok(c) => r == Ok::<PerMessageDeflateConfig, ExtensionParseError>(c),
                Err(e) => r matches Err(re) && re@ == e,
            },
    {
        if !str_eq(ext.name.as_str(), "permessage-deflate") {
            return Err(ExtensionParseError::NotDeflate);
        }
        let mut config = PerMessageDeflateConfig::default();
        let mut i: usize = 0;
        while i < ext.params.len()
            invariant
                i <= ext.params@.len(),
                ext@.name == pmd_name(),
                spec_validate_params(ext@.params, context, 0, default_config())
                    == spec_validate_params(ext@.params, context, i as int, config),
            decreases ext.params@.len() - i,
        {
            let param = &ext.params[i];
            assert(ext@.params[i as int] == param@);
            if !(name_is(param, "server_no_context_takeover") || name_is(
                param,
                "client_no_context_takeover",
            ) || name_is(param, "server_max_window_bits") || name_is(
                param,
                "client_max_window_bits",
            )) {
                return Err(ExtensionParseError::UnknownParameter(param.name.clone()));
            }
            let mut j: usize = 0;
            while j < i
                invariant
                    j <= i < ext.params@.len(),
                    param@ == ext@.params[i as int],
                    ext@.name == pmd_name(),
                    param@.name == snct_name() || param@.name == cnct_name() || param@.name
                        == smwb_name() || param@.name == cmwb_name(),
                    spec_validate_params(ext@.params, context, 0, default_config())
                        == spec_validate_params(ext@.params, context, i as int, config),
                    forall|m: int| 0 <= m < j ==> #[trigger] ext@.params[m].name != param@.name,
                decreases i - j,
            {
                let earlier = str_chars(ext.params[j].name.as_str());
                let this = str_chars(param.name.as_str());
                assert(ext@.params[j as int] == ext.params@[j as int]@);
                if chars_eq(earlier.as_slice(), this.as_slice()) {
                    assert(ext@.params[j as int].name == param@.name);
                    return Err(ExtensionParseError::DuplicateParameter(param.name.clone()));
                }
                j = j + 1;
            }
            if name_is(param, "server_no_context_takeover") {
                if param.value.is_some() {
                    return Err(
                        ExtensionParseError::UnexpectedValue(
                            string_from_str("server_no_context_takeover"),
                        ),
                    );
                }
                config.server_no_context_takeover = true;
            } else if name_is(param, "client_no_context_takeover") {
                if param.value.is_some() {
                    return Err(
                        ExtensionParseError::UnexpectedValue(
                            string_from_str("client_no_context_takeover"),
                        ),
                    );
                }
                config.client_no_context_takeover = true;
            } else if name_is(param, "server_max_window_bits") {
                match &param.value {
                    Some(value) => {
                        let bits = window_value("server_max_window_bits", value)?;
                        config.server_max_window_bits = Some(bits);
                    },
                    None => {
                        return Err(
                            ExtensionParseError::MissingValue(
                                string_from_str("server_max_window_bits"),
                            ),
                        );
                    },
                }
            } else {
                match &param.value {
                    Some(value) => {
                        let bits = window_value("client_max_window_bits", value)?;
                        config.client_max_window_bits = Some(bits);
                    },
                    None => {
                        if context == ExtensionParseContext::ClientResponse {
                            return Err(
                                ExtensionParseError::MissingValue(
                                    string_from_str("client_max_window_bits"),
                                ),
                            );
                        }
                        config.client_max_window_bits = Some(15);
                    },
                }
            }
            i = i + 1;
        }
        Ok(config)
    }

    /// Strict reading of a server's response, as a client.
    pub fn from_extension_for_client_response(ext: &Extension) -> (r: Result<
        PerMessageDeflateConfig,
        ExtensionParseError,
    >)
        ensures
            match spec_from_extension_validated(ext@, ExtensionParseContext::ClientResponse) {
                Ok(c) => r == Ok::<PerMessageDeflateConfig, ExtensionParseError>(c),
                Err(e) => r matches Err(re) && re@ == e,
            },
    {
        Self::from_extension_validated(ext, ExtensionParseContext::ClientResponse)
    }

    /// Strict reading of a client's offer, as a server.
    pub fn from_extension_for_server_request(ext: &Extension) -> (r: Result<
        PerMessageDeflateConfig,
        ExtensionParseError,
    >)
        ensures
            match spec_from_extension_validated(ext@, ExtensionParseContext::ServerRequest) {
                Ok(c) => r == Ok::<PerMessageDeflateConfig, ExtensionParseError>(c),
                Err(e) => r matches Err(re) && re@ == e,
            },
    {
        Self::from_extension_validated(ext, ExtensionParseContext::ServerRequest)
    }

    /// Merges a client offer with the server's settings: the server window
    /// bits are left out (the compressor always uses 15), the client window
    /// bits are included only when the client offered them (the smaller of
    /// the two values), and each no-context-takeover flag is set when either
    /// side asks for it.
    pub fn negotiate(client_request: &PerMessageDeflateConfig, server_config: &PerMessageDeflateConfig) -> (r: PerMessageDeflateConfig)
        ensures
            r == spec_negotiate(*client_request, *server_config),
    {
        PerMessageDeflateConfig {
            server_max_window_bits: None,
            client_max_window_bits: match (
                client_request.client_max_window_bits,
                server_config.client_max_window_bits,
            ) {
                (Some(c), Some(s)) => Some(if c <= s { c } else { s }),
                (Some(c), None) => Some(c),
                (None, _) => None,
            },
            server_no_context_takeover: client_request.server_no_context_takeover
                || server_config.server_no_context_takeover,
            client_no_context_takeover: client_request.client_no_context_takeover
                || server_config.client_no_context_takeover,
        }
    }
}

} // verus!
