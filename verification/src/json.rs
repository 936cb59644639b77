use vstd::prelude::*;
use vstd::string::StrSliceExecFns;
use vstd::string::StringExecFns;

verus! {

// A JSON document, as this client reads it off the wire. Arrays and
// objects are linked lists so that every walk over them is structural.
// A number is kept as its raw decimal text: nothing here ever converts
// a number the logic does not need.

pub enum Json {
    Null,
    Bool(bool),
    /// The number's exact text, e.g. `-0.25`.
    Num(String),
    Str(String),
    Arr(JsonList),
    Obj(JsonObj),
}

pub enum JsonList {
    Nil,
    Cons(Box<Json>, Box<JsonList>),
}

pub enum JsonObj {
    Nil,
    Cons(String, Box<Json>, Box<JsonObj>),
}

/// JSON insignificant whitespace.
pub open spec fn is_ws(c: char) -> bool {
    c == ' ' || c == '\n' || c == '\r' || c == '\t'
}

/// First index at or after `i` holding no whitespace.
pub open spec fn skip_ws(s: Seq<char>, i: int) -> int
    decreases s.len() - i,
{
    if 0 <= i < s.len() && is_ws(s[i]) {
        skip_ws(s, i + 1)
    } else {
        i
    }
}

pub open spec fn is_digit(c: char) -> bool {
    '0' <= c && c <= '9'
}

/// Characters that may continue a JSON number literal.
pub open spec fn is_num_char(c: char) -> bool {
    is_digit(c) || c == '-' || c == '+' || c == '.' || c == 'e' || c == 'E'
}

/// A nonempty run of decimal digits from `a` to just before `b`.
pub open spec fn is_digits_range(s: Seq<char>, a: int, b: int) -> bool {
    a < b <= s.len() && forall|k: int| a <= k < b ==> is_digit(#[trigger] s[k])
}

/// A JSON number literal: an optional minus, an integer part without a
/// leading zero, an optional fraction, an optional exponent, and nothing
/// else. `b` and `c` mark where the fraction and the exponent begin.
pub open spec fn is_json_number(s: Seq<char>) -> bool {
    let a: int = if s.len() > 0 && s[0] == '-' {
        1
    } else {
        0
    };
    exists|b: int, c: int|
        #![trigger span(b, c)]
        {
            &&& a < b <= c <= s.len()
            &&& if s[a] == '0' {
                b == a + 1
            } else {
                '1' <= s[a] && s[a] <= '9' && is_digits_range(s, a, b)
            }
            &&& (b == c || (s[b] == '.' && is_digits_range(s, b + 1, c)))
            &&& (c == s.len() || ((s[c] == 'e' || s[c] == 'E') && {
                let d: int = if c + 1 < s.len() && (s[c + 1] == '+' || s[c + 1] == '-') {
                    c + 2
                } else {
                    c + 1
                };
                is_digits_range(s, d, s.len() as int)
            }))
        }
}

/// The one-letter escape codes this client reads inside a string literal.
pub open spec fn is_esc_code(c: char) -> bool {
    c == '"' || c == '\\' || c == '/' || c == 'n' || c == 't' || c == 'r' || c == 'b' || c == 'f'
}

/// A hexadecimal digit, either case.
pub open spec fn is_hex(c: char) -> bool {
    ('0' <= c && c <= '9') || ('a' <= c && c <= 'f') || ('A' <= c && c <= 'F')
}

/// The value of one hexadecimal digit.
pub open spec fn hex_val(c: char) -> int {
    if '0' <= c && c <= '9' {
        (c as u32) - ('0' as u32)
    } else if 'a' <= c && c <= 'f' {
        (c as u32) - ('a' as u32) + 10
    } else {
        (c as u32) - ('A' as u32) + 10
    }
}

/// The value of a four-digit hexadecimal escape.
pub open spec fn hex4(a: char, b: char, c: char, d: char) -> int {
    hex_val(a) * 4096 + hex_val(b) * 256 + hex_val(c) * 16 + hex_val(d)
}

/// A four-digit escape value that is a scalar: everything up to 0xFFFF
/// but the surrogate range, which only pairs could express.
pub open spec fn is_scalar4(v: int) -> bool {
    v < 0xD800 || v >= 0xE000
}

/// The character an escape code stands for.
pub open spec fn unesc(c: char) -> char {
    if c == 'n' {
        '\n'
    } else if c == 't' {
        '\t'
    } else if c == 'r' {
        '\r'
    } else if c == 'b' {
        '\u{0008}'
    } else if c == 'f' {
        '\u{000C}'
    } else {
        c
    }
}

/// `text` is the body of a string literal (between its quotes) and reads
/// back as `content`.
pub open spec fn str_encodes(text: Seq<char>, content: Seq<char>) -> bool
    decreases text.len(),
{
    if text.len() == 0 {
        content.len() == 0
    } else if text[0] == '\\' {
        &&& text.len() >= 2
        &&& if text[1] == 'u' {
            &&& text.len() >= 6
            &&& is_hex(text[2]) && is_hex(text[3]) && is_hex(text[4]) && is_hex(text[5])
            &&& is_scalar4(hex4(text[2], text[3], text[4], text[5]))
            &&& content.len() >= 1
            &&& (content[0] as u32) == hex4(text[2], text[3], text[4], text[5])
            &&& str_encodes(text.skip(6), content.skip(1))
        } else {
            &&& is_esc_code(text[1])
            &&& content.len() >= 1
            &&& content[0] == unesc(text[1])
            &&& str_encodes(text.skip(2), content.skip(1))
        }
    } else {
        &&& text[0] != '"'
        &&& (text[0] as u32) >= 0x20
        &&& content.len() >= 1
        &&& content[0] == text[0]
        &&& str_encodes(text.skip(1), content.skip(1))
    }
}

/// Marks a stretch of text from `i` to `m`. Always true: it only anchors
/// the quantifiers over end positions in the parsing relations below.
pub open spec fn span(i: int, m: int) -> bool {
    true
}

/// A string literal stands at `k`, closes at `e - 1`, and reads as `content`.
pub open spec fn string_at(s: Seq<char>, k: int, content: Seq<char>, e: int) -> bool {
    &&& k + 2 <= e <= s.len()
    &&& s[k] == '"'
    &&& s[e - 1] == '"'
    &&& str_encodes(s.subrange(k + 1, e - 1), content)
}

/// The text of `s` from `i` on, after optional whitespace, spells the JSON
/// value `j` and ends exactly at `e`.
pub open spec fn parses(s: Seq<char>, i: int, j: Json, e: int) -> bool
    decreases j,
{
    let k = skip_ws(s, i);
    match j {
        Json::Null => {
            &&& k + 4 <= s.len()
            &&& s[k] == 'n' && s[k + 1] == 'u' && s[k + 2] == 'l' && s[k + 3] == 'l'
            &&& e == k + 4
        },
        Json::Bool(b) => if b {
            &&& k + 4 <= s.len()
            &&& s[k] == 't' && s[k + 1] == 'r' && s[k + 2] == 'u' && s[k + 3] == 'e'
            &&& e == k + 4
        } else {
            &&& k + 5 <= s.len()
            &&& s[k] == 'f' && s[k + 1] == 'a' && s[k + 2] == 'l' && s[k + 3] == 's' && s[k + 4]
                == 'e'
            &&& e == k + 5
        },
        Json::Num(raw) => {
            &&& is_json_number(raw@)
            &&& e == k + raw@.len()
            &&& e <= s.len()
            &&& s.subrange(k, e) == raw@
            &&& e == s.len() || !is_num_char(s[e])
        },
        Json::Str(st) => string_at(s, k, st@, e),
        Json::Arr(l) => {
            &&& k < s.len()
            &&& s[k] == '['
            &&& match l {
                JsonList::Nil => {
                    let k2 = skip_ws(s, k + 1);
                    k2 < s.len() && s[k2] == ']' && e == k2 + 1
                },
                JsonList::Cons(_, _) => parses_items(s, k + 1, l, e),
            }
        },
        Json::Obj(o) => {
            &&& k < s.len()
            &&& s[k] == '{'
            &&& match o {
                JsonObj::Nil => {
                    let k2 = skip_ws(s, k + 1);
                    k2 < s.len() && s[k2] == '}' && e == k2 + 1
                },
                JsonObj::Cons(_, _, _) => parses_members(s, k + 1, o, e),
            }
        },
    }
}

/// From `i` (just after `[` or a `,`): the items of `l` separated by commas,
/// then `]`, ending at `e`.
pub open spec fn parses_items(s: Seq<char>, i: int, l: JsonList, e: int) -> bool
    decreases l, 0int,
{
    match l {
        JsonList::Nil => false,
        JsonList::Cons(hd, tl) => exists|m: int|
            #[trigger] span(i, m) && parses(s, i, *hd, m) && items_rest(s, m, *tl, e),
    }
}

/// After an item that ended at `m`: either the closing bracket, or a comma
/// and the remaining items of `tl`.
pub open spec fn items_rest(s: Seq<char>, m: int, tl: JsonList, e: int) -> bool
    decreases tl, 1int,
{
    let k2 = skip_ws(s, m);
    &&& k2 < s.len()
    &&& match tl {
        JsonList::Nil => s[k2] == ']' && e == k2 + 1,
        JsonList::Cons(_, _) => s[k2] == ',' && parses_items(s, k2 + 1, tl, e),
    }
}

/// From `i` (just after `{` or a `,`): the members of `o`, each a quoted
/// key, a colon and a value, separated by commas, then `}`, ending at `e`.
pub open spec fn parses_members(s: Seq<char>, i: int, o: JsonObj, e: int) -> bool
    decreases o, 0int,
{
    match o {
        JsonObj::Nil => false,
        JsonObj::Cons(key, val, rest) => exists|q: int, m: int|
            #![trigger span(i, q), span(q, m)]
            {
                &&& string_at(s, skip_ws(s, i), key@, q)
                &&& skip_ws(s, q) < s.len()
                &&& s[skip_ws(s, q)] == ':'
                &&& parses(s, skip_ws(s, q) + 1, *val, m)
                &&& members_rest(s, m, *rest, e)
            },
    }
}

/// After a member's value that ended at `m`: either the closing brace, or
/// a comma and the remaining members of `rest`.
pub open spec fn members_rest(s: Seq<char>, m: int, rest: JsonObj, e: int) -> bool
    decreases rest, 1int,
{
    let k2 = skip_ws(s, m);
    &&& k2 < s.len()
    &&& match rest {
        JsonObj::Nil => s[k2] == '}' && e == k2 + 1,
        JsonObj::Cons(_, _, _) => s[k2] == ',' && parses_members(s, k2 + 1, rest, e),
    }
}

/// One way to read a nonempty array tail: its head ends at `m`, and what
/// follows closes the array or continues it.
pub proof fn lemma_items_cons(s: Seq<char>, i: int, l: JsonList, m: int, e: int)
    requires
        l matches JsonList::Cons(hd, tl) && parses(s, i, *hd, m) && items_rest(s, m, *tl, e),
    ensures
        parses_items(s, i, l, e),
{
    assert(span(i, m) && parses(s, i, *l->Cons_0, m) && items_rest(s, m, *l->Cons_1, e));
}

/// One way to read a nonempty object tail: a key string ending at `q`, a
/// colon, a value ending at `m`, and what follows closes or continues.
pub proof fn lemma_members_cons(s: Seq<char>, i: int, o: JsonObj, q: int, m: int, e: int)
    requires
        o matches JsonObj::Cons(key, val, rest) && string_at(s, skip_ws(s, i), key@, q) && skip_ws(
            s,
            q,
        ) < s.len() && s[skip_ws(s, q)] == ':' && parses(s, skip_ws(s, q) + 1, *val, m)
            && members_rest(s, m, *rest, e),
    ensures
        parses_members(s, i, o, e),
{
    assert(span(i, q) && span(q, m));
    assert(string_at(s, skip_ws(s, i), (o->Cons_0)@, q));
    assert(parses(s, skip_ws(s, q) + 1, *o->Cons_1, m));
    assert(members_rest(s, m, *o->Cons_2, e));
}

/// The value of `key` in `o`, first binding wins.
pub open spec fn olookup(o: JsonObj, key: Seq<char>) -> Option<Json>
    decreases o,
{
    match o {
        JsonObj::Nil => None,
        JsonObj::Cons(k, v, rest) => if k@ == key {
            Some(*v)
        } else {
            olookup(*rest, key)
        },
    }
}

/// Relies on char::from_u32: the conversion succeeds exactly for values
/// that are no surrogate and at most 0x10FFFF, and the character then has
/// that value.
#[verifier::external_body]
fn char_from_u32(v: u32) -> (r: Option<char>)
    ensures
        r matches Some(c) ==> (c as u32) == v,
        r is None ==> (0xD800 <= v < 0xE000) || v > 0x10FFFF,
{
    char::from_u32(v)
}

/// Relies on String::push: appends exactly one character at the end.
#[verifier::external_body]
pub(crate) fn push_char(s: &mut String, c: char)
    ensures
        final(s)@ == old(s)@.push(c),
{
    s.push(c);
}

/// A fresh string reading `c` then `rest`.
fn cons_char(c: char, rest: &str) -> (r: String)
    ensures
        r@ == seq![c] + rest@,
{
    let mut t = String::new();
    push_char(&mut t, c);
    t.append(rest);
    proof {
        assert(t@ =~= seq![c] + rest@);
    }
    t
}

fn is_ws_x(c: char) -> (r: bool)
    ensures
        r == is_ws(c),
{
    c == ' ' || c == '\n' || c == '\r' || c == '\t'
}

fn is_num_char_x(c: char) -> (r: bool)
    ensures
        r == is_num_char(c),
{
    ('0' <= c && c <= '9') || c == '-' || c == '+' || c == '.' || c == 'e' || c == 'E'
}

/// The value of one hexadecimal digit, if it is one.
fn hex_val_x(c: char) -> (r: Option<u32>)
    ensures
        r matches Some(v) ==> is_hex(c) && hex_val(c) == v,
        r is None ==> !is_hex(c),
{
    if '0' <= c && c <= '9' {
        Some((c as u32) - ('0' as u32))
    } else if 'a' <= c && c <= 'f' {
        Some((c as u32) - ('a' as u32) + 10)
    } else if 'A' <= c && c <= 'F' {
        Some((c as u32) - ('A' as u32) + 10)
    } else {
        None
    }
}

/// First position at or after `i` holding no whitespace.
fn skip_ws_x(s: &str, i: usize) -> (k: usize)
    requires
        i <= s@.len(),
    ensures
        i <= k <= s@.len(),
        k as int == skip_ws(s@, i as int),
{
    let n = s.unicode_len();
    let mut k = i;
    loop
        invariant
            i <= k <= n,
            n == s@.len(),
            skip_ws(s@, i as int) == skip_ws(s@, k as int),
        decreases n - k,
    {
        if k >= n {
            return k;
        }
        let c = s.get_char(k);
        if !is_ws_x(c) {
            return k;
        }
        k = k + 1;
    }
}

/// Reads a string literal body starting at `i` (just after the opening
/// quote); returns its content and the index of the closing quote.
fn parse_str_body(s: &str, i: usize) -> (r: Option<(String, usize)>)
    requires
        i <= s@.len(),
    ensures
        r matches Some((st, q)) ==> {
            &&& i <= q < s@.len()
            &&& s@[q as int] == '"'
            &&& str_encodes(s@.subrange(i as int, q as int), st@)
        },
    decreases s@.len() - i,
{
    let n = s.unicode_len();
    if i >= n {
        return None;
    }
    let c = s.get_char(i);
    if c == '"' {
        let out = String::new();
        proof {
            assert(s@.subrange(i as int, i as int) =~= Seq::<char>::empty());
        }
        return Some((out, i));
    }
    if c == '\\' {
        if n - i < 2 {
            return None;
        }
        let c2 = s.get_char(i + 1);
        if c2 == 'u' {
            if n - i < 6 {
                return None;
            }
            let h0 = match hex_val_x(s.get_char(i + 2)) {
                Some(h) => h,
                None => {
                    return None;
                },
            };
            let h1 = match hex_val_x(s.get_char(i + 3)) {
                Some(h) => h,
                None => {
                    return None;
                },
            };
            let h2 = match hex_val_x(s.get_char(i + 4)) {
                Some(h) => h,
                None => {
                    return None;
                },
            };
            let h3 = match hex_val_x(s.get_char(i + 5)) {
                Some(h) => h,
                None => {
                    return None;
                },
            };
            let v: u32 = h0 * 4096 + h1 * 256 + h2 * 16 + h3;
            if 0xD800 <= v && v < 0xE000 {
                // a lone surrogate; pairs are not read
                return None;
            }
            let u = match char_from_u32(v) {
                Some(u) => u,
                None => {
                    return None;
                },
            };
            return match parse_str_body(s, i + 6) {
                None => None,
                Some((rest, q)) => {
                    let out = cons_char(u, rest.as_str());
                    proof {
                        let text = s@.subrange(i as int, q as int);
                        assert(text.len() >= 6);
                        assert(text[0] == '\\' && text[1] == 'u');
                        assert(text[2] == s@[i + 2] && text[3] == s@[i + 3] && text[4] == s@[i + 4]
                            && text[5] == s@[i + 5]);
                        assert(hex4(text[2], text[3], text[4], text[5]) == v);
                        assert(text.skip(6) =~= s@.subrange(i + 6, q as int));
                        assert(out@.skip(1) =~= rest@);
                        assert(out@[0] == u);
                    }
                    Some((out, q))
                },
            };
        }
        let u: char = if c2 == '"' {
            '"'
        } else if c2 == '\\' {
            '\\'
        } else if c2 == '/' {
            '/'
        } else if c2 == 'n' {
            '\n'
        } else if c2 == 't' {
            '\t'
        } else if c2 == 'r' {
            '\r'
        } else if c2 == 'b' {
            '\u{0008}'
        } else if c2 == 'f' {
            '\u{000C}'
        } else {
            return None;
        };
        match parse_str_body(s, i + 2) {
            None => None,
            Some((rest, q)) => {
                let out = cons_char(u, rest.as_str());
                proof {
                    let text = s@.subrange(i as int, q as int);
                    assert(text.len() >= 2);
                    assert(text[0] == '\\');
                    assert(text[1] == c2);
                    assert(text.skip(2) =~= s@.subrange(i + 2, q as int));
                    assert(out@.skip(1) =~= rest@);
                    assert(out@[0] == u);
                }
                Some((out, q))
            },
        }
    } else if (c as u32) < 0x20 {
        // a raw control character may not stand in a string literal
        None
    } else {
        match parse_str_body(s, i + 1) {
            None => None,
            Some((rest, q)) => {
                let out = cons_char(c, rest.as_str());
                proof {
                    let text = s@.subrange(i as int, q as int);
                    assert(text[0] == c);
                    assert(text.skip(1) =~= s@.subrange(i + 1, q as int));
                    assert(out@.skip(1) =~= rest@);
                    assert(out@[0] == c);
                }
                Some((out, q))
            },
        }
    }
}

/// First position at or after `a` holding no decimal digit.
fn digits_end(s: &str, a: usize) -> (b: usize)
    requires
        a <= s@.len(),
    ensures
        a <= b <= s@.len(),
        forall|k: int| a <= k < b ==> is_digit(#[trigger] s@[k]),
        b == s@.len() || !is_digit(s@[b as int]),
{
    let n = s.unicode_len();
    let mut b = a;
    loop
        invariant
            a <= b <= n,
            n == s@.len(),
            forall|k: int| a <= k < b ==> is_digit(#[trigger] s@[k]),
        decreases n - b,
    {
        if b >= n {
            return b;
        }
        let c = s.get_char(b);
        if !('0' <= c && c <= '9') {
            return b;
        }
        b = b + 1;
    }
}

/// Whether `s` is, in whole, a JSON number literal.
fn check_json_number(s: &str) -> (r: bool)
    ensures
        r ==> is_json_number(s@),
{
    let n = s.unicode_len();
    let mut a: usize = 0;
    if n > 0 && s.get_char(0) == '-' {
        a = 1;
    }
    if a >= n {
        return false;
    }
    let ca = s.get_char(a);
    let b: usize;
    if ca == '0' {
        b = a + 1;
    } else if '1' <= ca && ca <= '9' {
        b = digits_end(s, a);
    } else {
        return false;
    }
    let mut c: usize = b;
    if b < n && s.get_char(b) == '.' {
        c = digits_end(s, b + 1);
        if c == b + 1 {
            return false;
        }
    }
    if c == n {
        proof {
            assert(span(b as int, c as int));
        }
        return true;
    }
    let cc = s.get_char(c);
    if cc != 'e' && cc != 'E' {
        return false;
    }
    let mut d: usize = c + 1;
    if d < n {
        let cd = s.get_char(d);
        if cd == '+' || cd == '-' {
            d = d + 1;
        }
    }
    if d >= n {
        return false;
    }
    let e2 = digits_end(s, d);
    if e2 != n {
        return false;
    }
    proof {
        assert(span(b as int, c as int));
        assert(is_digits_range(s@, d as int, s@.len() as int));
    }
    true
}

/// Reads a number literal starting exactly at `k` (no leading whitespace).
fn parse_num(s: &str, k: usize) -> (r: Option<(String, usize)>)
    requires
        k < s@.len(),
        is_num_char(s@[k as int]),
    ensures
        r matches Some((raw, e)) ==> {
            &&& k < e <= s@.len()
            &&& is_json_number(raw@)
            &&& raw@ == s@.subrange(k as int, e as int)
            &&& e == s@.len() || !is_num_char(s@[e as int])
        },
{
    let n = s.unicode_len();
    let mut m = k;
    loop
        invariant
            k <= m <= n,
            n == s@.len(),
            k < s@.len() && is_num_char(s@[k as int]),
            forall|t: int| k <= t < m ==> is_num_char(#[trigger] s@[t]),
        ensures
            k <= m <= n,
            forall|t: int| k <= t < m ==> is_num_char(#[trigger] s@[t]),
            m == s@.len() || !is_num_char(s@[m as int]),
        decreases n - m,
    {
        if m >= n {
            break ;
        }
        if !is_num_char_x(s.get_char(m)) {
            break ;
        }
        m = m + 1;
    }
    if m == k {
        return None;
    }
    let raw = s.substring_char(k, m).to_owned();
    if !check_json_number(raw.as_str()) {
        return None;
    }
    Some((raw, m))
}

/// Reads one JSON value beginning at `i` (leading whitespace allowed).
pub fn parse_value(s: &str, i: usize) -> (r: Option<(Json, usize)>)
    requires
        i <= s@.len(),
    ensures
        r matches Some((j, e)) ==> {
            &&& i < e <= s@.len()
            &&& parses(s@, i as int, j, e as int)
        },
    decreases s@.len() - i, 0int,
{
    let n = s.unicode_len();
    let k = skip_ws_x(s, i);
    if k >= n {
        return None;
    }
    let c = s.get_char(k);
    if c == 'n' {
        if n - k >= 4 && s.get_char(k + 1) == 'u' && s.get_char(k + 2) == 'l' && s.get_char(k + 3)
            == 'l' {
            Some((Json::Null, k + 4))
        } else {
            None
        }
    } else if c == 't' {
        if n - k >= 4 && s.get_char(k + 1) == 'r' && s.get_char(k + 2) == 'u' && s.get_char(k + 3)
            == 'e' {
            Some((Json::Bool(true), k + 4))
        } else {
            None
        }
    } else if c == 'f' {
        if n - k >= 5 && s.get_char(k + 1) == 'a' && s.get_char(k + 2) == 'l' && s.get_char(k + 3)
            == 's' && s.get_char(k + 4) == 'e' {
            Some((Json::Bool(false), k + 5))
        } else {
            None
        }
    } else if c == '"' {
        match parse_str_body(s, k + 1) {
            None => None,
            Some((st, q)) => {
                proof {
                    assert(string_at(s@, k as int, st@, q + 1));
                }
                Some((Json::Str(st), q + 1))
            },
        }
    } else if c == '[' {
        let k2 = skip_ws_x(s, k + 1);
        if k2 < n && s.get_char(k2) == ']' {
            return Some((Json::Arr(JsonList::Nil), k2 + 1));
        }
        match parse_items(s, k + 1) {
            None => None,
            Some((l, e)) => Some((Json::Arr(l), e)),
        }
    } else if c == '{' {
        let k2 = skip_ws_x(s, k + 1);
        if k2 < n && s.get_char(k2) == '}' {
            return Some((Json::Obj(JsonObj::Nil), k2 + 1));
        }
        match parse_members(s, k + 1) {
            None => None,
            Some((o, e)) => Some((Json::Obj(o), e)),
        }
    } else if is_num_char_x(c) {
        match parse_num(s, k) {
            None => None,
            Some((raw, e)) => Some((Json::Num(raw), e)),
        }
    } else {
        None
    }
}

/// Reads the items of a nonempty array from just after `[` or a `,`.
fn parse_items(s: &str, i: usize) -> (r: Option<(JsonList, usize)>)
    requires
        i <= s@.len(),
    ensures
        r matches Some((l, e)) ==> {
            &&& i < e <= s@.len()
            &&& l matches JsonList::Cons(_, _)
            &&& parses_items(s@, i as int, l, e as int)
        },
    decreases s@.len() - i, 1int,
{
    let n = s.unicode_len();
    match parse_value(s, i) {
        None => None,
        Some((j, m)) => {
            let k2 = skip_ws_x(s, m);
            if k2 >= n {
                return None;
            }
            let c = s.get_char(k2);
            if c == ']' {
                let l = JsonList::Cons(Box::new(j), Box::new(JsonList::Nil));
                proof {
                    lemma_items_cons(s@, i as int, l, m as int, k2 + 1);
                }
                Some((l, k2 + 1))
            } else if c == ',' {
                match parse_items(s, k2 + 1) {
                    None => None,
                    Some((tl, e)) => {
                        let l = JsonList::Cons(Box::new(j), Box::new(tl));
                        proof {
                            lemma_items_cons(s@, i as int, l, m as int, e as int);
                        }
                        Some((l, e))
                    },
                }
            } else {
                None
            }
        },
    }
}

/// Reads the members of a nonempty object from just after `{` or a `,`.
fn parse_members(s: &str, i: usize) -> (r: Option<(JsonObj, usize)>)
    requires
        i <= s@.len(),
    ensures
        r matches Some((o, e)) ==> {
            &&& i < e <= s@.len()
            &&& o matches JsonObj::Cons(_, _, _)
            &&& parses_members(s@, i as int, o, e as int)
        },
    decreases s@.len() - i, 1int,
{
    let n = s.unicode_len();
    let k = skip_ws_x(s, i);
    if k >= n {
        return None;
    }
    if s.get_char(k) != '"' {
        return None;
    }
    match parse_str_body(s, k + 1) {
        None => None,
        Some((key, q)) => {
            proof {
                assert(string_at(s@, k as int, key@, q + 1));
            }
            let c = skip_ws_x(s, q + 1);
            if c >= n {
                return None;
            }
            if s.get_char(c) != ':' {
                return None;
            }
            match parse_value(s, c + 1) {
                None => None,
                Some((v, m)) => {
                    let k2 = skip_ws_x(s, m);
                    if k2 >= n {
                        return None;
                    }
                    let c2 = s.get_char(k2);
                    if c2 == '}' {
                        let o = JsonObj::Cons(key, Box::new(v), Box::new(JsonObj::Nil));
                        proof {
                            lemma_members_cons(s@, i as int, o, q + 1, m as int, k2 + 1);
                        }
                        Some((o, k2 + 1))
                    } else if c2 == ',' {
                        match parse_members(s, k2 + 1) {
                            None => None,
                            Some((rest, e)) => {
                                let o = JsonObj::Cons(key, Box::new(v), Box::new(rest));
                                proof {
                                    lemma_members_cons(s@, i as int, o, q + 1, m as int, e as int);
                                }
                                Some((o, e))
                            },
                        }
                    } else {
                        None
                    }
                },
            }
        },
    }
}

/// `s` is a whole JSON document reading as `j`: one value, with nothing
/// but whitespace around it.
pub open spec fn is_document(s: Seq<char>, j: Json) -> bool {
    exists|e: int| #[trigger] span(0, e) && parses(s, 0, j, e) && skip_ws(s, e) == s.len()
}

/// Reads a whole JSON document: one value, then only whitespace to the end.
pub fn parse_document(s: &str) -> (r: Option<Json>)
    ensures
        r matches Some(j) ==> is_document(s@, j),
{
    let n = s.unicode_len();
    match parse_value(s, 0) {
        None => None,
        Some((j, e)) => {
            let t = skip_ws_x(s, e);
            if t == n {
                proof {
                    assert(span(0, e as int) && parses(s@, 0, j, e as int) && skip_ws(
                        s@,
                        e as int,
                    ) == s@.len());
                }
                Some(j)
            } else {
                None
            }
        },
    }
}

/// First binding of `key` in `o`, as `olookup` gives it.
pub fn get_field<'a>(o: &'a JsonObj, key: &str) -> (r: Option<&'a Json>)
    ensures
        match r {
            Some(v) => olookup(*o, key@) == Some(*v),
            None => olookup(*o, key@) is None,
        },
{
    let ks: String = key.to_owned();
    let mut cur = o;
    loop
        invariant
            ks@ == key@,
            olookup(*o, key@) == olookup(*cur, key@),
        decreases *cur,
    {
        match cur {
            JsonObj::Nil => {
                return None;
            },
            JsonObj::Cons(k, v, rest) => {
                if *k == ks {
                    return Some(v);
                }
                cur = rest;
            },
        }
    }
}

} // verus!
