//! Character-level helpers shared by the header grammar code.

use vstd::prelude::*;
use vstd::string::StringExecFns;

verus! {

broadcast use vstd::string::group_string_axioms;

/// The characters of `s`, in order.
pub fn str_chars(s: &str) -> (r: Vec<char>)
    ensures
        r@ == s@,
{
    let mut out: Vec<char> = Vec::new();
    for c in it: s.chars()
        invariant
            it.seq() == s@,
            out@ == it.seq().take(it.index() as int),
    {
        out.push(c);
        assert(it.seq().take(it.index() + 1) =~= it.seq().take(it.index() as int).push(c));
    }
    assert(s@.take(s@.len() as int) =~= s@);
    out
}

/// Appends one character to a string (`String::push`).
#[verifier::external_body]
pub fn push_char(s: &mut String, c: char)
    ensures
        final(s)@ == old(s)@.push(c),
{
    s.push(c);
}

/// Decodes UTF-8 bytes into a string (`String::from_utf8`): `Err` exactly
/// when the bytes are not valid UTF-8, holding the error's message, of which
/// nothing is stated.
#[verifier::external_body]
pub fn string_from_utf8(bytes: Vec<u8>) -> (r: Result<String, String>)
    ensures
        r is Ok <==> vstd::utf8::valid_utf8(bytes@),
        r matches Ok(s) ==> s@ == vstd::utf8::decode_utf8(bytes@),
{
    String::from_utf8(bytes).map_err(|e| e.to_string())
}

/// A string holding the characters `cs`.
pub fn string_from_chars(cs: &[char]) -> (r: String)
    ensures
        r@ == cs@,
{
    let mut s = String::new();
    let mut i: usize = 0;
    while i < cs.len()
        invariant
            i <= cs@.len(),
            s@ == cs@.take(i as int),
        decreases cs@.len() - i,
    {
        push_char(&mut s, cs[i]);
        i = i + 1;
        assert(s@ =~= cs@.take(i as int));
    }
    assert(cs@.take(cs@.len() as int) =~= cs@);
    s
}

/// A string holding the characters `cs[lo..hi]`.
pub fn string_from_range(cs: &[char], lo: usize, hi: usize) -> (r: String)
    requires
        lo <= hi <= cs@.len(),
    ensures
        r@ == cs@.subrange(lo as int, hi as int),
{
    let mut s = String::new();
    let mut i: usize = lo;
    while i < hi
        invariant
            lo <= i <= hi <= cs@.len(),
            s@ == cs@.subrange(lo as int, i as int),
        decreases hi - i,
    {
        push_char(&mut s, cs[i]);
        i = i + 1;
        assert(s@ =~= cs@.subrange(lo as int, i as int));
    }
    s
}

/// A string equal to `s`.
pub fn string_from_str(s: &str) -> (r: String)
    ensures
        r@ == s@,
{
    let mut r = String::new();
    r.append(s);
    assert(r@ =~= s@);
    r
}

/// The concatenation of `a` and `b`.
pub fn concat_str(a: &str, b: &str) -> (r: String)
    ensures
        r@ == a@ + b@,
{
    let mut r = String::new();
    r.append(a);
    r.append(b);
    assert(r@ =~= a@ + b@);
    r
}

/// Whether two character sequences are equal.
pub fn chars_eq(a: &[char], b: &[char]) -> (r: bool)
    ensures
        r == (a@ == b@),
{
    if a.len() != b.len() {
        return false;
    }
    let mut i: usize = 0;
    while i < a.len()
        invariant
            i <= a@.len() == b@.len(),
            forall|j: int| 0 <= j < i ==> a@[j] == b@[j],
        decreases a@.len() - i,
    {
        if a[i] != b[i] {
            return false;
        }
        i = i + 1;
    }
    assert(a@ =~= b@);
    true
}

/// Whether two strings are equal.
pub fn str_eq(a: &str, b: &str) -> (r: bool)
    ensures
        r == (a@ == b@),
{
    let ca = str_chars(a);
    let cb = str_chars(b);
    chars_eq(ca.as_slice(), cb.as_slice())
}

/// The code of `c` with ASCII upper case letters lowered.
pub open spec fn lower_code(c: char) -> u32 {
    if 'A' <= c && c <= 'Z' {
        ((c as u32) + 32) as u32
    } else {
        c as u32
    }
}

/// Equality ignoring ASCII case (`eq_ignore_ascii_case`).
pub open spec fn ci_eq(a: Seq<char>, b: Seq<char>) -> bool {
    a.len() == b.len() && forall|i: int| 0 <= i < a.len() ==> #[trigger] lower_code(a[i]) == lower_code(b[i])
}

fn lower_char_code(c: char) -> (r: u32)
    ensures
        r == lower_code(c),
{
    if 'A' <= c && c <= 'Z' {
        (c as u32) + 32
    } else {
        c as u32
    }
}

/// Whether `a` and `b` are equal ignoring ASCII case.
pub fn chars_ci_eq(a: &[char], b: &[char]) -> (r: bool)
    ensures
        r == ci_eq(a@, b@),
{
    if a.len() != b.len() {
        return false;
    }
    let mut i: usize = 0;
    while i < a.len()
        invariant
            i <= a@.len() == b@.len(),
            forall|j: int| 0 <= j < i ==> #[trigger] lower_code(a@[j]) == lower_code(b@[j]),
        decreases a@.len() - i,
    {
        if lower_char_code(a[i]) != lower_char_code(b[i]) {
            return false;
        }
        i = i + 1;
    }
    true
}

/// `char::is_whitespace`: the Unicode `White_Space` property.
pub open spec fn is_white(c: char) -> bool {
    ('\u{9}' <= c && c <= '\u{D}') || c == ' ' || c == '\u{85}' || c == '\u{A0}' || c
        == '\u{1680}' || ('\u{2000}' <= c && c <= '\u{200A}') || c == '\u{2028}' || c
        == '\u{2029}' || c == '\u{202F}' || c == '\u{205F}' || c == '\u{3000}'
}

/// Whether `c` is Unicode white space.
pub fn white(c: char) -> (r: bool)
    ensures
        r == is_white(c),
{
    ('\u{9}' <= c && c <= '\u{D}') || c == ' ' || c == '\u{85}' || c == '\u{A0}' || c
        == '\u{1680}' || ('\u{2000}' <= c && c <= '\u{200A}') || c == '\u{2028}' || c
        == '\u{2029}' || c == '\u{202F}' || c == '\u{205F}' || c == '\u{3000}'
}

/// `s` without leading white space.
pub open spec fn trim_start(s: Seq<char>) -> Seq<char>
    decreases s.len(),
{
    if s.len() > 0 && is_white(s[0]) {
        trim_start(s.drop_first())
    } else {
        s
    }
}

/// `s` without trailing white space.
pub open spec fn trim_end(s: Seq<char>) -> Seq<char>
    decreases s.len(),
{
    if s.len() > 0 && is_white(s.last()) {
        trim_end(s.drop_last())
    } else {
        s
    }
}

/// `str::trim`: `s` without leading and trailing white space.
pub open spec fn trim(s: Seq<char>) -> Seq<char> {
    trim_end(trim_start(s))
}

proof fn lemma_trim_start_step(s: Seq<char>, i: int)
    requires
        0 <= i < s.len(),
        forall|j: int| 0 <= j <= i ==> #[trigger] is_white(s[j]),
    ensures
        trim_start(s) == trim_start(s.subrange(i + 1, s.len() as int)),
    decreases i,
{
    if i == 0 {
        assert(s.drop_first() =~= s.subrange(1, s.len() as int));
    } else {
        let t = s.drop_first();
        assert forall|j: int| 0 <= j <= i - 1 implies #[trigger] is_white(t[j]) by {
            assert(t[j] == s[j + 1]);
        }
        lemma_trim_start_step(t, i - 1);
        assert(t.subrange(i, t.len() as int) =~= s.subrange(i + 1, s.len() as int));
    }
}

proof fn lemma_trim_end_step(s: Seq<char>, k: int)
    requires
        0 < k <= s.len(),
        forall|j: int| k <= j < s.len() ==> #[trigger] is_white(s[j]),
    ensures
        trim_end(s) == trim_end(s.subrange(0, k)),
    decreases s.len() - k,
{
    if k < s.len() {
        let t = s.drop_last();
        assert forall|j: int| k <= j < t.len() implies #[trigger] is_white(t[j]) by {
            assert(t[j] == s[j]);
        }
        lemma_trim_end_step(t, k);
        assert(t.subrange(0, k) =~= s.subrange(0, k));
    } else {
        assert(s.subrange(0, k) =~= s);
    }
}

/// The bounds `(lo, hi)` of `trim(s[from..to])` inside `s`.
pub fn trim_range(s: &[char], from: usize, to: usize) -> (r: (usize, usize))
    requires
        from <= to <= s@.len(),
    ensures
        from <= r.0 <= r.1 <= to,
        s@.subrange(r.0 as int, r.1 as int) == trim(s@.subrange(from as int, to as int)),
{
    let ghost t = s@.subrange(from as int, to as int);
    let mut lo: usize = from;
    while lo < to && white(s[lo])
        invariant
            from <= lo <= to <= s@.len(),
            forall|j: int| from <= j < lo ==> #[trigger] is_white(s@[j]),
        decreases to - lo,
    {
        lo = lo + 1;
    }
    proof {
        if lo > from {
            assert forall|j: int| 0 <= j <= lo - from - 1 implies #[trigger] is_white(t[j]) by {
                assert(t[j] == s@[from + j]);
            }
            lemma_trim_start_step(t, lo - from - 1);
        }
        assert(t.subrange(lo - from, t.len() as int) =~= s@.subrange(lo as int, to as int));
        if lo < to {
            assert(!is_white(s@[lo as int]));
            assert(trim_start(s@.subrange(lo as int, to as int)) == s@.subrange(lo as int, to as int));
        } else {
            assert(s@.subrange(lo as int, to as int).len() == 0);
        }
    }
    let ghost u = s@.subrange(lo as int, to as int);
    assert(trim_start(t) == u);
    let mut hi: usize = to;
    while hi > lo && white(s[hi - 1])
        invariant
            lo <= hi <= to <= s@.len(),
            forall|j: int| hi <= j < to ==> #[trigger] is_white(s@[j]),
        decreases hi - lo,
    {
        hi = hi - 1;
    }
    proof {
        if hi > lo {
            assert forall|j: int| hi - lo <= j < u.len() implies #[trigger] is_white(u[j]) by {
                assert(u[j] == s@[lo + j]);
            }
            lemma_trim_end_step(u, hi - lo);
            assert(u.subrange(0, hi - lo) =~= s@.subrange(lo as int, hi as int));
            assert(!is_white(s@[hi - 1]));
            let w = s@.subrange(lo as int, hi as int);
            assert(w.last() == s@[hi - 1]);
            assert(trim_end(w) == w);
        } else {
            assert(forall|j: int| 0 <= j < u.len() ==> #[trigger] is_white(u[j]) ==> true);
            lemma_trim_end_all_white(u);
            assert(s@.subrange(lo as int, hi as int) =~= Seq::<char>::empty());
        }
    }
    (lo, hi)
}

proof fn lemma_trim_end_all_white(s: Seq<char>)
    requires
        forall|j: int| 0 <= j < s.len() ==> #[trigger] is_white(s[j]),
    ensures
        trim_end(s) =~= Seq::<char>::empty(),
    decreases s.len(),
{
    if s.len() > 0 {
        let t = s.drop_last();
        assert forall|j: int| 0 <= j < t.len() implies #[trigger] is_white(t[j]) by {
            assert(t[j] == s[j]);
        }
        lemma_trim_end_all_white(t);
    }
}

// ---------------------------------------------------------------------------
// Decimal numbers
// ---------------------------------------------------------------------------

/// The ASCII digit for `d < 10`.
pub open spec fn digit_char(d: nat) -> char {
    ((d + 48) as u32) as char
}

/// The value of an ASCII digit.
pub open spec fn digit_value(c: char) -> nat {
    ((c as u32) - 48) as nat
}

pub open spec fn is_digit(c: char) -> bool {
    '0' <= c && c <= '9'
}

/// The decimal representation of `n`, without leading zeros.
pub open spec fn decimal(n: nat) -> Seq<char>
    decreases n,
{
    if n < 10 {
        seq![digit_char(n)]
    } else {
        decimal(n / 10).push(digit_char(n % 10))
    }
}

/// The value of a sequence of decimal digits.
pub open spec fn digits_value(s: Seq<char>) -> nat
    decreases s.len(),
{
    if s.len() == 0 {
        0
    } else {
        digits_value(s.drop_last()) * 10 + digit_value(s.last())
    }
}

/// `s` without one leading `+`.
pub open spec fn strip_plus(s: Seq<char>) -> Seq<char> {
    if s.len() > 0 && s[0] == '+' {
        s.drop_first()
    } else {
        s
    }
}

/// Every character of `s` is an ASCII digit.
pub open spec fn all_digits(s: Seq<char>) -> bool {
    forall|i: int| 0 <= i < s.len() ==> #[trigger] is_digit(s[i])
}

/// `u8::from_str`: an optional `+` followed by one or more decimal digits
/// whose value is at most 255.
pub open spec fn spec_parse_u8(s: Seq<char>) -> Option<u8> {
    let digits = strip_plus(s);
    if digits.len() == 0 {
        None
    } else if !all_digits(digits) {
        None
    } else if digits_value(digits) > 255 {
        None
    } else {
        Some(digits_value(digits) as u8)
    }
}

/// The decimal representation of `n`.
pub fn u8_to_decimal(n: u8) -> (r: String)
    ensures
        r@ == decimal(n as nat),
{
    let mut s = String::new();
    if n >= 100 {
        push_char(&mut s, char_of_digit(n / 100));
        push_char(&mut s, char_of_digit((n / 10) % 10));
        push_char(&mut s, char_of_digit(n % 10));
        proof {
            let n0 = n as nat;
            assert(n0 / 10 / 10 == n0 / 100);
            assert(n0 / 100 < 10);
            assert(n0 / 10 >= 10);
            assert(decimal(n0 / 100) == seq![digit_char(n0 / 100)]);
            assert(decimal(n0 / 10) == decimal(n0 / 10 / 10).push(digit_char((n0 / 10) % 10)));
            assert(decimal(n0) == decimal(n0 / 10).push(digit_char(n0 % 10)));
            assert(s@ =~= decimal(n as nat));
        }
    } else if n >= 10 {
        push_char(&mut s, char_of_digit(n / 10));
        push_char(&mut s, char_of_digit(n % 10));
        proof {
            let n0 = n as nat;
            assert(decimal(n0 / 10) == seq![digit_char(n0 / 10)]);
            assert(decimal(n0) == decimal(n0 / 10).push(digit_char(n0 % 10)));
            assert(s@ =~= decimal(n as nat));
        }
    } else {
        push_char(&mut s, char_of_digit(n));
        assert(s@ =~= decimal(n as nat));
    }
    s
}

/// The decimal representation of `n`.
pub fn u64_to_decimal(n: u64) -> (r: String)
    ensures
        r@ == decimal(n as nat),
    decreases n,
{
    if n < 10 {
        let mut s = String::new();
        push_char(&mut s, char_of_digit(n as u8));
        assert(s@ =~= decimal(n as nat));
        s
    } else {
        let mut s = u64_to_decimal(n / 10);
        push_char(&mut s, char_of_digit((n % 10) as u8));
        s
    }
}

fn char_of_digit(d: u8) -> (r: char)
    requires
        d < 10,
    ensures
        r == digit_char(d as nat),
        is_digit(r),
        digit_value(r) == d,
{
    let c: char = match d {
        0 => '0',
        1 => '1',
        2 => '2',
        3 => '3',
        4 => '4',
        5 => '5',
        6 => '6',
        7 => '7',
        8 => '8',
        _ => '9',
    };
    c
}

fn value_of_digit(c: char) -> (r: u8)
    requires
        is_digit(c),
    ensures
        r as nat == digit_value(c),
        r < 10,
{
    match c {
        '0' => 0,
        '1' => 1,
        '2' => 2,
        '3' => 3,
        '4' => 4,
        '5' => 5,
        '6' => 6,
        '7' => 7,
        '8' => 8,
        _ => 9,
    }
}

proof fn lemma_digits_value_mono(s: Seq<char>, i: int)
    requires
        0 <= i <= s.len(),
    ensures
        digits_value(s.take(i)) <= digits_value(s),
    decreases s.len() - i,
{
    if i < s.len() {
        lemma_digits_value_mono(s.drop_last(), i);
        assert(s.drop_last().take(i) =~= s.take(i));
        assert(digits_value(s) == digits_value(s.drop_last()) * 10 + digit_value(s.last()));
        assert(digits_value(s.drop_last()) <= digits_value(s.drop_last()) * 10) by (nonlinear_arith);
    } else {
        assert(s.take(i) =~= s);
    }
}

/// `str::parse::<u8>` on the characters `s`.
pub fn parse_u8(s: &[char]) -> (r: Option<u8>)
    ensures
        r == spec_parse_u8(s@),
{
    let start: usize = if s.len() > 0 && s[0] == '+' {
        1
    } else {
        0
    };
    let ghost digits = strip_plus(s@);
    assert(digits =~= s@.subrange(start as int, s@.len() as int));
    if start == s.len() {
        return None;
    }
    let mut v: u32 = 0;
    let mut i: usize = start;
    while i < s.len()
        invariant
            start <= i <= s@.len(),
            digits == s@.subrange(start as int, s@.len() as int),
            digits == strip_plus(s@),
            forall|j: int| start <= j < i ==> #[trigger] is_digit(s@[j]),
            v as nat == digits_value(digits.take(i - start)),
            v <= 255,
        decreases s@.len() - i,
    {
        assert(digits[i - start] == s@[i as int]);
        if !('0' <= s[i] && s[i] <= '9') {
            assert(spec_parse_u8(s@) is None) by {
                assert(digits[i - start] == s@[i as int]);
                assert(!is_digit(digits[i - start]));
                assert(!all_digits(digits));
                assert(strip_plus(s@) == digits);
            }
            return None;
        }
        let d = value_of_digit(s[i]);
        let ghost t = digits.take(i - start + 1);
        proof {
            assert(t.drop_last() =~= digits.take(i - start));
            assert(t.last() == s@[i as int]);
        }
        let nv: u32 = v * 10 + d as u32;
        assert(digits_value(t) == nv);
        if nv > 255 {
            assert(spec_parse_u8(s@) is None) by {
                lemma_digits_value_mono(digits, i - start + 1);
                assert(strip_plus(s@) == digits);
                assert(digits_value(digits) > 255);
            }
            return None;
        }
        v = nv;
        i = i + 1;
    }
    assert(digits.take(s@.len() - start) =~= digits);
    assert forall|j: int| 0 <= j < digits.len() implies #[trigger] is_digit(digits[j]) by {
        assert(digits[j] == s@[start + j]);
    }
    Some(v as u8)
}

} // verus!
