//! The serialization contract of the console's records: a JSON codec
//! for flat objects whose member values are strings or `null` — the
//! only shapes the record types use. The encoder escapes exactly as
//! the store's historical values were escaped (quote, backslash, and
//! control characters); the parser accepts whitespace between tokens,
//! the short escapes, and `\u` escapes (including surrogate pairs).

use crate::common::AppError;
use crate::text::{char_from_u32, chars_to_string, push_char};
use vstd::prelude::*;

verus! {

/// A member value: the record types carry only strings, and `null`
/// for an absent key.
pub enum JsonValue {
    Text(String),
    Null,
}

/// The mathematical image of a member value.
pub enum JsonValueV {
    Text(Seq<char>),
    Null,
}

impl View for JsonValue {
    type V = JsonValueV;

    open spec fn view(&self) -> JsonValueV {
        match self {
            JsonValue::Text(s) => JsonValueV::Text(s@),
            JsonValue::Null => JsonValueV::Null,
        }
    }
}

/// One member of a parsed object.
pub struct JsonMember {
    pub name: String,
    pub value: JsonValue,
}

/// The mathematical image of a member list.
pub open spec fn member_views(ms: Seq<JsonMember>) -> Seq<(Seq<char>, JsonValueV)> {
    ms.map_values(|m: JsonMember| (m.name@, m.value@))
}

// ------------------------------------------------------------------
// Encoding
// ------------------------------------------------------------------

/// The lower-case hexadecimal digit for a value below sixteen.
pub open spec fn hex_digit(n: int) -> char {
    if n == 0 {
        '0'
    } else if n == 1 {
        '1'
    } else if n == 2 {
        '2'
    } else if n == 3 {
        '3'
    } else if n == 4 {
        '4'
    } else if n == 5 {
        '5'
    } else if n == 6 {
        '6'
    } else if n == 7 {
        '7'
    } else if n == 8 {
        '8'
    } else if n == 9 {
        '9'
    } else if n == 10 {
        'a'
    } else if n == 11 {
        'b'
    } else if n == 12 {
        'c'
    } else if n == 13 {
        'd'
    } else if n == 14 {
        'e'
    } else {
        'f'
    }
}

/// How one character appears inside an encoded string: quote and
/// backslash get a short escape, the named control characters get
/// theirs, the remaining control characters a `\u00XX` escape, and
/// everything else stands as itself.
pub open spec fn esc_char(c: char) -> Seq<char> {
    if c == '"' {
        seq!['\\', '"']
    } else if c == '\\' {
        seq!['\\', '\\']
    } else if c == '\u{8}' {
        seq!['\\', 'b']
    } else if c == '\u{9}' {
        seq!['\\', 't']
    } else if c == '\u{a}' {
        seq!['\\', 'n']
    } else if c == '\u{c}' {
        seq!['\\', 'f']
    } else if c == '\u{d}' {
        seq!['\\', 'r']
    } else if (c as u32) < 32 {
        seq!['\\', 'u', '0', '0', hex_digit((c as u32) as int / 16), hex_digit((c as u32) as int % 16)]
    } else {
        seq![c]
    }
}

/// The escaped form of a whole string.
pub open spec fn esc_str(s: Seq<char>) -> Seq<char>
    decreases s.len(),
{
    if s.len() == 0 {
        Seq::empty()
    } else {
        esc_char(s[0]) + esc_str(s.skip(1))
    }
}

/// A quoted, escaped string token.
pub open spec fn enc_text(s: Seq<char>) -> Seq<char> {
    seq!['"'] + esc_str(s) + seq!['"']
}

/// An encoded member value.
pub open spec fn enc_value(v: JsonValueV) -> Seq<char> {
    match v {
        JsonValueV::Text(s) => enc_text(s),
        JsonValueV::Null => seq!['n', 'u', 'l', 'l'],
    }
}

/// An encoded member: name, colon, value, no whitespace.
pub open spec fn enc_member(name: Seq<char>, v: JsonValueV) -> Seq<char> {
    enc_text(name) + seq![':'] + enc_value(v)
}

/// An encoded member list, comma-separated.
pub open spec fn enc_members(ms: Seq<(Seq<char>, JsonValueV)>) -> Seq<char>
    decreases ms.len(),
{
    if ms.len() == 0 {
        Seq::empty()
    } else if ms.len() == 1 {
        enc_member(ms[0].0, ms[0].1)
    } else {
        enc_member(ms[0].0, ms[0].1) + seq![','] + enc_members(ms.skip(1))
    }
}

/// A whole encoded object.
pub open spec fn enc_object(ms: Seq<(Seq<char>, JsonValueV)>) -> Seq<char> {
    seq!['{'] + enc_members(ms) + seq!['}']
}

// ------------------------------------------------------------------
// Parsing
// ------------------------------------------------------------------

/// JSON whitespace.
pub open spec fn is_ws(c: char) -> bool {
    c == ' ' || c == '\u{9}' || c == '\u{a}' || c == '\u{d}'
}

/// The first position at or after `i` that holds no whitespace.
pub open spec fn skip_ws(s: Seq<char>, i: int) -> int
    decreases s.len() - i,
{
    if 0 <= i < s.len() && is_ws(s[i]) {
        skip_ws(s, i + 1)
    } else {
        i
    }
}

/// The value of one hexadecimal digit, either case.
pub open spec fn hex_val(c: char) -> Option<int> {
    let v = (c as u32) as int;
    if 48 <= v <= 57 {
        Some(v - 48)
    } else if 97 <= v <= 102 {
        Some(v - 87)
    } else if 65 <= v <= 70 {
        Some(v - 55)
    } else {
        None
    }
}

/// The value of four hexadecimal digits starting at `i`.
pub open spec fn hex4(s: Seq<char>, i: int) -> Option<int> {
    if i < 0 || i + 4 > s.len() {
        None
    } else {
        let a = hex_val(s[i]);
        let b = hex_val(s[i + 1]);
        let c = hex_val(s[i + 2]);
        let d = hex_val(s[i + 3]);
        if a is Some && b is Some && c is Some && d is Some {
            Some(a->Some_0 * 4096 + b->Some_0 * 256 + c->Some_0 * 16 + d->Some_0)
        } else {
            None
        }
    }
}

/// A `\u` escape read from the four digits at `i`: a plain scalar, or
/// a surrogate pair continued by a second `\uXXXX`.
pub open spec fn p_hex_escape(s: Seq<char>, i: int) -> Option<(char, int)> {
    match hex4(s, i) {
        None => None,
        Some(v) => if 0xD800 <= v < 0xDC00 {
            if i + 6 <= s.len() && s[i + 4] == '\\' && s[i + 5] == 'u' {
                match hex4(s, i + 6) {
                    None => None,
                    Some(w) => if 0xDC00 <= w < 0xE000 {
                        Some(
                            (((0x10000 + (v - 0xD800) * 0x400 + (w - 0xDC00)) as u32) as char, i
                                + 10),
                        )
                    } else {
                        None
                    },
                }
            } else {
                None
            }
        } else if 0xDC00 <= v < 0xE000 {
            None
        } else {
            Some(((v as u32) as char, i + 4))
        },
    }
}

/// The character named by the escape code at `i` (the position just
/// after the backslash), and the position after the escape.
pub open spec fn p_escape(s: Seq<char>, i: int) -> Option<(char, int)> {
    if i < 0 || i >= s.len() {
        None
    } else {
        let c = s[i];
        if c == '"' {
            Some(('"', i + 1))
        } else if c == '\\' {
            Some(('\\', i + 1))
        } else if c == '/' {
            Some(('/', i + 1))
        } else if c == 'b' {
            Some(('\u{8}', i + 1))
        } else if c == 'f' {
            Some(('\u{c}', i + 1))
        } else if c == 'n' {
            Some(('\u{a}', i + 1))
        } else if c == 'r' {
            Some(('\u{d}', i + 1))
        } else if c == 't' {
            Some(('\u{9}', i + 1))
        } else if c == 'u' {
            p_hex_escape(s, i + 1)
        } else {
            None
        }
    }
}

/// The rest of a string token, read from just after the opening
/// quote: the decoded content and the position after the closing
/// quote. Raw control characters are refused, as the grammar demands.
pub open spec fn p_string_body(s: Seq<char>, i: int) -> Option<(Seq<char>, int)>
    decreases s.len() - i,
{
    if i < 0 || i >= s.len() {
        None
    } else if s[i] == '"' {
        Some((Seq::empty(), i + 1))
    } else if s[i] == '\\' {
        match p_escape(s, i + 1) {
            None => None,
            Some((c, j)) => if j <= i + 1 || j > s.len() {
                None
            } else {
                match p_string_body(s, j) {
                    None => None,
                    Some((rest, k)) => Some((seq![c] + rest, k)),
                }
            },
        }
    } else if (s[i] as u32) < 32 {
        None
    } else {
        match p_string_body(s, i + 1) {
            None => None,
            Some((rest, k)) => Some((seq![s[i]] + rest, k)),
        }
    }
}

/// A member value at `i`: a string token or the literal `null`.
pub open spec fn p_value(s: Seq<char>, i: int) -> Option<(JsonValueV, int)> {
    if i < 0 || i >= s.len() {
        None
    } else if s[i] == '"' {
        match p_string_body(s, i + 1) {
            None => None,
            Some((t, j)) => Some((JsonValueV::Text(t), j)),
        }
    } else if s[i] == 'n' {
        if i + 4 <= s.len() && s[i + 1] == 'u' && s[i + 2] == 'l' && s[i + 3] == 'l' {
            Some((JsonValueV::Null, i + 4))
        } else {
            None
        }
    } else {
        None
    }
}

/// One member at `i`: a name token, a colon, a value, with
/// whitespace allowed around the colon.
pub open spec fn p_member(s: Seq<char>, i: int) -> Option<((Seq<char>, JsonValueV), int)> {
    if i < 0 || i >= s.len() || s[i] != '"' {
        None
    } else {
        match p_string_body(s, i + 1) {
            None => None,
            Some((name, j)) => {
                let k = skip_ws(s, j);
                if k < 0 || k >= s.len() || s[k] != ':' {
                    None
                } else {
                    let m = skip_ws(s, k + 1);
                    match p_value(s, m) {
                        None => None,
                        Some((v, e)) => Some(((name, v), e)),
                    }
                }
            },
        }
    }
}

/// A non-empty member list starting at `i`, consumed up to and
/// including the closing brace.
pub open spec fn p_members(s: Seq<char>, i: int) -> Option<(Seq<(Seq<char>, JsonValueV)>, int)>
    decreases s.len() - i,
{
    if i < 0 || i >= s.len() {
        None
    } else {
        match p_member(s, i) {
            None => None,
            Some((pr, e)) => {
                let j = skip_ws(s, e);
                if j < 0 || j >= s.len() {
                    None
                } else if s[j] == '}' {
                    Some((seq![pr], j + 1))
                } else if s[j] == ',' {
                    let n = skip_ws(s, j + 1);
                    if n <= i || n > s.len() {
                        None
                    } else {
                        match p_members(s, n) {
                            None => None,
                            Some((rest, f)) => Some((seq![pr] + rest, f)),
                        }
                    }
                } else {
                    None
                }
            },
        }
    }
}

/// A whole object read from the start of the input: its member list
/// and the position after the closing brace.
pub open spec fn p_object(s: Seq<char>) -> Option<(Seq<(Seq<char>, JsonValueV)>, int)> {
    let i = skip_ws(s, 0);
    if i >= s.len() || s[i] != '{' {
        None
    } else {
        let j = skip_ws(s, i + 1);
        if j < s.len() && s[j] == '}' {
            Some((Seq::empty(), j + 1))
        } else {
            p_members(s, j)
        }
    }
}

/// What the parser accepts: one object, with nothing but whitespace
/// after it.
pub open spec fn parse_object(s: Seq<char>) -> Option<Seq<(Seq<char>, JsonValueV)>> {
    match p_object(s) {
        None => None,
        Some((ms, e)) => if 0 <= e <= s.len() && skip_ws(s, e) == s.len() {
            Some(ms)
        } else {
            None
        },
    }
}

/// Walks past whitespace.
fn skip_ws_exec(s: &Vec<char>, i: usize) -> (r: usize)
    requires
        i <= s@.len(),
    ensures
        r as int == skip_ws(s@, i as int),
        i <= r <= s@.len(),
{
    let mut j = i;
    while j < s.len() && (s[j] == ' ' || s[j] == '\u{9}' || s[j] == '\u{a}' || s[j] == '\u{d}')
        invariant
            i <= j <= s@.len(),
            skip_ws(s@, i as int) == skip_ws(s@, j as int),
        decreases s@.len() - j,
    {
        j += 1;
    }
    proof {
        assert(skip_ws(s@, j as int) == j as int);
    }
    j
}

/// Reads one hexadecimal digit.
fn hex_val_exec(c: char) -> (r: Option<u32>)
    ensures
        match r {
            Some(v) => hex_val(c) == Some(v as int) && v < 16,
            None => hex_val(c) is None,
        },
{
    let v = c as u32;
    if 48 <= v && v <= 57 {
        Some(v - 48)
    } else if 97 <= v && v <= 102 {
        Some(v - 87)
    } else if 65 <= v && v <= 70 {
        Some(v - 55)
    } else {
        None
    }
}

/// Reads four hexadecimal digits.
fn hex4_exec(s: &Vec<char>, i: usize) -> (r: Option<u32>)
    requires
        i <= s@.len(),
    ensures
        match r {
            Some(v) => hex4(s@, i as int) == Some(v as int) && v < 0x10000,
            None => hex4(s@, i as int) is None,
        },
{
    if s.len() - i < 4 {
        return None;
    }
    let a = hex_val_exec(s[i]);
    let b = hex_val_exec(s[i + 1]);
    let c = hex_val_exec(s[i + 2]);
    let d = hex_val_exec(s[i + 3]);
    match (a, b, c, d) {
        (Some(a), Some(b), Some(c), Some(d)) => Some(a * 4096 + b * 256 + c * 16 + d),
        _ => None,
    }
}

/// Reads a `\u` escape (the digits start at `i`).
fn hex_escape_exec(s: &Vec<char>, i: usize) -> (r: Option<(char, usize)>)
    requires
        i <= s@.len(),
    ensures
        match r {
            Some((c, j)) => p_hex_escape(s@, i as int) == Some((c, j as int)) && i < j <= s@.len(),
            None => p_hex_escape(s@, i as int) is None,
        },
{
    let n = s.len();
    let v = match hex4_exec(s, i) {
        None => {
            return None;
        },
        Some(v) => v,
    };
    if 0xD800 <= v && v < 0xDC00 {
        if n - i >= 6 && s[i + 4] == '\\' && s[i + 5] == 'u' {
            let w = match hex4_exec(s, i + 6) {
                None => {
                    return None;
                },
                Some(w) => w,
            };
            if 0xDC00 <= w && w < 0xE000 {
                let code: u32 = 0x10000 + (v - 0xD800) * 0x400 + (w - 0xDC00);
                match char_from_u32(code) {
                    Some(c) => {
                        proof {
                            vstd::utf8::char_u32_cast(c, code);
                        }
                        Some((c, i + 10))
                    },
                    None => None,
                }
            } else {
                None
            }
        } else {
            None
        }
    } else if 0xDC00 <= v && v < 0xE000 {
        None
    } else {
        proof {
            assert(i as int + 4 <= s@.len());
        }
        match char_from_u32(v) {
            Some(c) => {
                proof {
                    vstd::utf8::char_u32_cast(c, v);
                }
                Some((c, i + 4))
            },
            None => None,
        }
    }
}

/// Reads the escape code just after a backslash.
fn escape_exec(s: &Vec<char>, i: usize) -> (r: Option<(char, usize)>)
    requires
        i <= s@.len(),
    ensures
        match r {
            Some((c, j)) => p_escape(s@, i as int) == Some((c, j as int)) && i < j <= s@.len(),
            None => p_escape(s@, i as int) is None,
        },
{
    if i >= s.len() {
        return None;
    }
    let c = s[i];
    if c == '"' {
        Some(('"', i + 1))
    } else if c == '\\' {
        Some(('\\', i + 1))
    } else if c == '/' {
        Some(('/', i + 1))
    } else if c == 'b' {
        Some(('\u{8}', i + 1))
    } else if c == 'f' {
        Some(('\u{c}', i + 1))
    } else if c == 'n' {
        Some(('\u{a}', i + 1))
    } else if c == 'r' {
        Some(('\u{d}', i + 1))
    } else if c == 't' {
        Some(('\u{9}', i + 1))
    } else if c == 'u' {
        hex_escape_exec(s, i + 1)
    } else {
        None
    }
}

/// Reads the rest of a string token, from just after the opening quote.
fn string_body_exec(s: &Vec<char>, i: usize) -> (r: Option<(Vec<char>, usize)>)
    requires
        i <= s@.len(),
    ensures
        match r {
            Some((t, j)) => p_string_body(s@, i as int) == Some((t@, j as int)) && i < j
                <= s@.len(),
            None => p_string_body(s@, i as int) is None,
        },
    decreases s@.len() - i,
{
    if i >= s.len() {
        return None;
    }
    let c = s[i];
    if c == '"' {
        let t: Vec<char> = Vec::new();
        proof {
            assert(t@ =~= Seq::<char>::empty());
        }
        Some((t, i + 1))
    } else if c == '\\' {
        let (e, j) = match escape_exec(s, i + 1) {
            None => {
                return None;
            },
            Some(p) => p,
        };
        let (mut t, k) = match string_body_exec(s, j) {
            None => {
                return None;
            },
            Some(p) => p,
        };
        t.insert(0, e);
        proof {
            assert(t@ =~= seq![e] + p_string_body(s@, j as int)->Some_0.0);
        }
        Some((t, k))
    } else if (c as u32) < 32 {
        None
    } else {
        let (mut t, k) = match string_body_exec(s, i + 1) {
            None => {
                return None;
            },
            Some(p) => p,
        };
        t.insert(0, c);
        proof {
            assert(t@ =~= seq![c] + p_string_body(s@, i + 1 as int)->Some_0.0);
        }
        Some((t, k))
    }
}

/// Reads a member value.
fn value_exec(s: &Vec<char>, i: usize) -> (r: Option<(JsonValue, usize)>)
    requires
        i <= s@.len(),
    ensures
        match r {
            Some((v, j)) => p_value(s@, i as int) == Some((v@, j as int)) && i < j <= s@.len(),
            None => p_value(s@, i as int) is None,
        },
{
    if i >= s.len() {
        return None;
    }
    let c = s[i];
    if c == '"' {
        match string_body_exec(s, i + 1) {
            None => None,
            Some((t, j)) => Some((JsonValue::Text(chars_to_string(&t)), j)),
        }
    } else if c == 'n' {
        if s.len() - i >= 4 && s[i + 1] == 'u' && s[i + 2] == 'l' && s[i + 3] == 'l' {
            Some((JsonValue::Null, i + 4))
        } else {
            None
        }
    } else {
        None
    }
}

/// Reads one member.
fn member_exec(s: &Vec<char>, i: usize) -> (r: Option<(JsonMember, usize)>)
    requires
        i <= s@.len(),
    ensures
        match r {
            Some((m, e)) => p_member(s@, i as int) == Some(((m.name@, m.value@), e as int)) && i
                < e <= s@.len(),
            None => p_member(s@, i as int) is None,
        },
{
    if i >= s.len() {
        return None;
    }
    if s[i] != '"' {
        return None;
    }
    let (name, j) = match string_body_exec(s, i + 1) {
        None => {
            return None;
        },
        Some(p) => p,
    };
    let k = skip_ws_exec(s, j);
    if k >= s.len() {
        return None;
    }
    if s[k] != ':' {
        return None;
    }
    let m = skip_ws_exec(s, k + 1);
    match value_exec(s, m) {
        None => None,
        Some((v, e)) => Some(
            (JsonMember { name: chars_to_string(&name), value: v }, e),
        ),
    }
}

/// Reads a non-empty member list up to the closing brace.
fn members_exec(s: &Vec<char>, i: usize) -> (r: Option<(Vec<JsonMember>, usize)>)
    requires
        i <= s@.len(),
    ensures
        match r {
            Some((v, f)) => p_members(s@, i as int) == Some((member_views(v@), f as int)) && i < f
                <= s@.len(),
            None => p_members(s@, i as int) is None,
        },
    decreases s@.len() - i,
{
    if i >= s.len() {
        return None;
    }
    let (mb, e) = match member_exec(s, i) {
        None => {
            return None;
        },
        Some(p) => p,
    };
    let j = skip_ws_exec(s, e);
    if j >= s.len() {
        return None;
    }
    if s[j] == '}' {
        let mut v: Vec<JsonMember> = Vec::new();
        let ghost pr = (mb.name@, mb.value@);
        v.push(mb);
        proof {
            assert(member_views(v@) =~= seq![pr]);
        }
        Some((v, j + 1))
    } else if s[j] == ',' {
        let n = skip_ws_exec(s, j + 1);
        if n <= i {
            return None;
        }
        let (mut v, f) = match members_exec(s, n) {
            None => {
                return None;
            },
            Some(p) => p,
        };
        let ghost pr = (mb.name@, mb.value@);
        let ghost rest = member_views(v@);
        v.insert(0, mb);
        proof {
            assert(member_views(v@) =~= seq![pr] + rest);
        }
        Some((v, f))
    } else {
        None
    }
}

/// Reads one object, demanding that nothing but whitespace follows
/// it.
pub fn parse_json(s: &Vec<char>) -> (r: Option<Vec<JsonMember>>)
    ensures
        match r {
            Some(v) => parse_object(s@) == Some(member_views(v@)),
            None => parse_object(s@) is None,
        },
{
    let i = skip_ws_exec(s, 0);
    if i >= s.len() {
        return None;
    }
    if s[i] != '{' {
        return None;
    }
    let j = skip_ws_exec(s, i + 1);
    if j < s.len() && s[j] == '}' {
        let t = skip_ws_exec(s, j + 1);
        if t == s.len() {
            let v: Vec<JsonMember> = Vec::new();
            proof {
                assert(member_views(v@) =~= Seq::<(Seq<char>, JsonValueV)>::empty());
            }
            Some(v)
        } else {
            None
        }
    } else {
        match members_exec(s, j) {
            None => None,
            Some((v, f)) => {
                let t = skip_ws_exec(s, f);
                if t == s.len() {
                    Some(v)
                } else {
                    None
                }
            },
        }
    }
}

// ------------------------------------------------------------------
// Field lookup
// ------------------------------------------------------------------

/// How many members from position `i` on carry this name.
pub open spec fn occ_from(ms: Seq<(Seq<char>, JsonValueV)>, name: Seq<char>, i: int) -> nat
    decreases ms.len() - i,
{
    if i < 0 || i >= ms.len() {
        0
    } else {
        (if ms[i].0 == name {
            1nat
        } else {
            0nat
        }) + occ_from(ms, name, i + 1)
    }
}

/// The first value from position `i` on under this name.
pub open spec fn first_from(ms: Seq<(Seq<char>, JsonValueV)>, name: Seq<char>, i: int) -> Option<
    JsonValueV,
>
    decreases ms.len() - i,
{
    if i < 0 || i >= ms.len() {
        None
    } else if ms[i].0 == name {
        Some(ms[i].1)
    } else {
        first_from(ms, name, i + 1)
    }
}

/// How many members of the list carry this name.
pub open spec fn occurrences(ms: Seq<(Seq<char>, JsonValueV)>, name: Seq<char>) -> nat {
    occ_from(ms, name, 0)
}

/// The first value under this name, if the name occurs at all.
pub open spec fn field_value(ms: Seq<(Seq<char>, JsonValueV)>, name: Seq<char>) -> Option<
    JsonValueV,
> {
    first_from(ms, name, 0)
}

/// A required string field: present exactly once, and a string.
pub open spec fn req_field(ms: Seq<(Seq<char>, JsonValueV)>, name: Seq<char>) -> Option<Seq<char>> {
    if occurrences(ms, name) == 1 {
        match field_value(ms, name) {
            Some(JsonValueV::Text(t)) => Some(t),
            _ => None,
        }
    } else {
        None
    }
}

/// An optional string field: absent or `null` both mean "no value";
/// a duplicate refuses the object. The outer `None` is the refusal.
pub open spec fn opt_field(ms: Seq<(Seq<char>, JsonValueV)>, name: Seq<char>) -> Option<
    Option<Seq<char>>,
> {
    if occurrences(ms, name) == 0 {
        Some(None)
    } else if occurrences(ms, name) == 1 {
        match field_value(ms, name) {
            Some(JsonValueV::Text(t)) => Some(Some(t)),
            Some(JsonValueV::Null) => Some(None),
            None => None,
        }
    } else {
        None
    }
}

pub proof fn lemma_no_lookup(ms: Seq<(Seq<char>, JsonValueV)>, name: Seq<char>, i: int)
    requires
        0 <= i <= ms.len(),
        forall|j: int| i <= j < ms.len() ==> ms[j].0 != name,
    ensures
        occ_from(ms, name, i) == 0,
        first_from(ms, name, i) is None,
    decreases ms.len() - i,
{
    if i < ms.len() {
        lemma_no_lookup(ms, name, i + 1);
    }
}

/// When exactly one member carries a name, the lookups find it.
pub proof fn lemma_unique_lookup(ms: Seq<(Seq<char>, JsonValueV)>, name: Seq<char>, i: int, k: int)
    requires
        0 <= i <= k < ms.len(),
        ms[k].0 == name,
        forall|j: int| i <= j < ms.len() && j != k ==> ms[j].0 != name,
    ensures
        occ_from(ms, name, i) == 1,
        first_from(ms, name, i) == Some(ms[k].1),
    decreases k - i,
{
    if i == k {
        lemma_no_lookup(ms, name, i + 1);
    } else {
        lemma_unique_lookup(ms, name, i + 1, k);
    }
}

impl JsonValue {
    /// A field-wise copy.
    pub fn duplicate(&self) -> (r: JsonValue)
        ensures
            r@ == self@,
    {
        match self {
            JsonValue::Text(s) => JsonValue::Text(s.clone()),
            JsonValue::Null => JsonValue::Null,
        }
    }
}

/// Scans a member list for a name: how often it occurs, and the
/// first value under it.
pub fn find_field(ms: &Vec<JsonMember>, name: &str) -> (r: (usize, Option<JsonValue>))
    ensures
        r.0 as nat == occurrences(member_views(ms@), name@),
        match r.1 {
            Some(v) => field_value(member_views(ms@), name@) == Some(v@),
            None => field_value(member_views(ms@), name@) is None,
        },
{
    let ghost mvs = member_views(ms@);
    let mut cnt: usize = 0;
    let mut found: Option<JsonValue> = None;
    let mut i: usize = 0;
    while i < ms.len()
        invariant
            i <= ms@.len(),
            mvs == member_views(ms@),
            mvs.len() == ms@.len(),
            cnt <= i,
            cnt as nat + occ_from(mvs, name@, i as int) == occurrences(mvs, name@),
            (found is None) <==> (cnt == 0),
            match found {
                Some(v) => field_value(mvs, name@) == Some(v@),
                None => field_value(mvs, name@) == first_from(mvs, name@, i as int),
            },
        decreases ms@.len() - i,
    {
        proof {
            assert(mvs[i as int] == (ms@[i as int].name@, ms@[i as int].value@));
            assert(occ_from(mvs, name@, i as int) == (if mvs[i as int].0 == name@ {
                1nat
            } else {
                0nat
            }) + occ_from(mvs, name@, i + 1));
        }
        if crate::text::str_eq(ms[i].name.as_str(), name) {
            proof {
                assert(first_from(mvs, name@, i as int) == Some(mvs[i as int].1));
            }
            cnt = cnt + 1;
            if cnt == 1 {
                found = Some(ms[i].value.duplicate());
            }
        } else {
            proof {
                assert(first_from(mvs, name@, i as int) == first_from(mvs, name@, i + 1));
            }
        }
        i += 1;
    }
    (cnt, found)
}

/// Pulls a required string field out of a member list.
pub fn get_req_field(ms: &Vec<JsonMember>, name: &str) -> (r: Option<String>)
    ensures
        match r {
            Some(s) => req_field(member_views(ms@), name@) == Some(s@),
            None => req_field(member_views(ms@), name@) is None,
        },
{
    let (cnt, found) = find_field(ms, name);
    if cnt != 1 {
        return None;
    }
    match found {
        Some(JsonValue::Text(s)) => Some(s),
        _ => None,
    }
}

/// Pulls an optional string field out of a member list.
pub fn get_opt_field(ms: &Vec<JsonMember>, name: &str) -> (r: Option<Option<String>>)
    ensures
        match r {
            Some(Some(s)) => opt_field(member_views(ms@), name@) == Some(Some(s@)),
            Some(None) => opt_field(member_views(ms@), name@) matches Some(o) && o is None,
            None => opt_field(member_views(ms@), name@) is None,
        },
{
    let (cnt, found) = find_field(ms, name);
    if cnt == 0 {
        return Some(None);
    }
    if cnt != 1 {
        return None;
    }
    match found {
        Some(JsonValue::Text(s)) => Some(Some(s)),
        Some(JsonValue::Null) => Some(None),
        None => None,
    }
}

pub proof fn lemma_esc_str_snoc(s: Seq<char>, c: char)
    ensures
        esc_str(s.push(c)) == esc_str(s) + esc_char(c),
    decreases s.len(),
{
    let t = s.push(c);
    if s.len() == 0 {
        assert(t[0] == c);
        assert(t.skip(1) =~= Seq::<char>::empty());
        assert(esc_str(t.skip(1)) == Seq::<char>::empty());
        assert(esc_str(t) == esc_char(c) + esc_str(t.skip(1)));
        assert(esc_str(t) =~= esc_str(s) + esc_char(c));
    } else {
        assert(t[0] == s[0]);
        assert(t.skip(1) =~= s.skip(1).push(c));
        lemma_esc_str_snoc(s.skip(1), c);
        assert(esc_str(t) == esc_char(t[0]) + esc_str(t.skip(1)));
        assert(esc_str(s) == esc_char(s[0]) + esc_str(s.skip(1)));
        assert(esc_str(t) =~= esc_str(s) + esc_char(c));
    }
}

pub proof fn lemma_hex_digit_val(n: int)
    requires
        0 <= n < 16,
    ensures
        hex_val(hex_digit(n)) == Some(n),
{
}

/// Parsing inverts escaping: a string body made of an escaped
/// content, the closing quote, and anything after it reads back as
/// exactly that content.
#[verifier::rlimit(100)]
pub proof fn lemma_parse_escaped(s: Seq<char>, i: int, content: Seq<char>, rest: Seq<char>)
    requires
        0 <= i <= s.len(),
        s.skip(i) == esc_str(content) + seq!['"'] + rest,
    ensures
        p_string_body(s, i) == Some((content, i + esc_str(content).len() + 1)),
    decreases content.len(),
{
    assert(s.skip(i).len() == s.len() - i);
    if content.len() == 0 {
        assert(esc_str(content) == Seq::<char>::empty());
        assert(s.skip(i)[0] == '"');
        assert(s[i] == '"');
        assert(p_string_body(s, i) == Some((Seq::<char>::empty(), i + 1)));
        assert(Seq::<char>::empty() =~= content);
    } else {
        let c = content[0];
        let ct = content.skip(1);
        assert(esc_str(content) == esc_char(c) + esc_str(ct));
        let esc = esc_char(c);
        let tail = esc_str(ct) + seq!['"'] + rest;
        assert(s.skip(i) =~= esc + tail);
        assert(s.len() - i == esc.len() + tail.len());
        assert(forall|k: int| 0 <= k < esc.len() ==> s.skip(i)[k] == esc[k]);
        assert(forall|k: int| 0 <= k < esc.len() ==> s.skip(i)[k] == s[i + k]);
        if c == '"' || c == '\\' || c == '\u{8}' || c == '\u{9}' || c == '\u{a}' || c == '\u{c}'
            || c == '\u{d}' {
            // a two-character escape
            assert(esc.len() == 2);
            assert(s[i] == s.skip(i)[0] && s[i + 1] == s.skip(i)[1]);
            assert(s[i] == '\\');
            assert(p_escape(s, i + 1) == Some((c, i + 2)));
            assert(s.skip(i + 2) =~= s.skip(i).skip(2));
            assert(s.skip(i).skip(2) =~= tail);
            assert(s.skip(i + 2) =~= tail);
            lemma_parse_escaped(s, i + 2, ct, rest);
            assert(p_string_body(s, i + 2) == Some((ct, i + 2 + esc_str(ct).len() + 1)));
            assert(p_string_body(s, i) == Some((seq![c] + ct, i + 2 + esc_str(ct).len() + 1)));
            assert(seq![c] + ct =~= content);
        } else if (c as u32) < 32 {
            // a \u00XX escape
            let v = (c as u32) as int;
            assert(esc =~= seq!['\\', 'u', '0', '0', hex_digit(v / 16), hex_digit(v % 16)]);
            assert(esc.len() == 6);
            assert(s[i] == s.skip(i)[0] && s[i + 1] == s.skip(i)[1] && s[i + 2] == s.skip(i)[2]
                && s[i + 3] == s.skip(i)[3] && s[i + 4] == s.skip(i)[4] && s[i + 5] == s.skip(
                i,
            )[5]);
            assert(s[i] == '\\');
            assert(s[i + 1] == 'u');
            assert(s[i + 2] == '0');
            assert(s[i + 3] == '0');
            assert(s[i + 4] == hex_digit(v / 16));
            assert(s[i + 5] == hex_digit(v % 16));
            lemma_hex_digit_val(v / 16);
            lemma_hex_digit_val(v % 16);
            assert(hex_val('0') == Some(0int));
            assert(i + 2 + 4 <= s.len());
            assert(hex4(s, i + 2) == Some(0 * 4096 + 0 * 256 + (v / 16) * 16 + v % 16));
            assert((v / 16) * 16 + v % 16 == v);
            assert(hex4(s, i + 2) == Some(v));
            assert(v < 0xD800);
            vstd::utf8::char_u32_cast(c, c as u32);
            assert(((v as u32) as char) == c);
            assert(p_hex_escape(s, i + 2) == Some((c, i + 6)));
            assert(p_escape(s, i + 1) == Some((c, i + 6)));
            assert(s.skip(i + 6) =~= s.skip(i).skip(6));
            assert(s.skip(i).skip(6) =~= tail);
            assert(s.skip(i + 6) =~= tail);
            lemma_parse_escaped(s, i + 6, ct, rest);
            assert(p_string_body(s, i) == Some((seq![c] + ct, i + 6 + esc_str(ct).len() + 1)));
            assert(seq![c] + ct =~= content);
        } else {
            // the character stands as itself
            assert(esc =~= seq![c]);
            assert(s[i] == s.skip(i)[0]);
            assert(s[i] == c);
            assert(s.skip(i + 1) =~= s.skip(i).skip(1));
            assert(s.skip(i).skip(1) =~= tail);
            assert(s.skip(i + 1) =~= tail);
            lemma_parse_escaped(s, i + 1, ct, rest);
            assert(p_string_body(s, i) == Some((seq![c] + ct, i + 1 + esc_str(ct).len() + 1)));
            assert(seq![c] + ct =~= content);
        }
    }
}

pub proof fn lemma_parse_text(s: Seq<char>, i: int, t: Seq<char>, rest: Seq<char>)
    requires
        0 <= i <= s.len(),
        s.skip(i) == enc_text(t) + rest,
    ensures
        i < s.len(),
        s[i] == '"',
        p_string_body(s, i + 1) == Some((t, i + enc_text(t).len())),
{
    assert(s.skip(i).len() == s.len() - i);
    assert(s.skip(i)[0] == '"');
    assert(s[i] == s.skip(i)[0]);
    assert(s.skip(i + 1) =~= s.skip(i).skip(1));
    assert(s.skip(i).skip(1) =~= esc_str(t) + seq!['"'] + rest);
    lemma_parse_escaped(s, i + 1, t, rest);
    assert(i + 1 + esc_str(t).len() + 1 == i + enc_text(t).len());
}

pub proof fn lemma_parse_value(s: Seq<char>, i: int, v: JsonValueV, rest: Seq<char>)
    requires
        0 <= i <= s.len(),
        s.skip(i) == enc_value(v) + rest,
    ensures
        i < s.len(),
        s[i] == '"' || s[i] == 'n',
        p_value(s, i) == Some((v, i + enc_value(v).len())),
{
    assert(s.skip(i).len() == s.len() - i);
    match v {
        JsonValueV::Text(t) => {
            lemma_parse_text(s, i, t, rest);
            assert(p_value(s, i) == Some((JsonValueV::Text(t), i + enc_value(v).len())));
        },
        JsonValueV::Null => {
            assert(s[i] == s.skip(i)[0] && s[i + 1] == s.skip(i)[1] && s[i + 2] == s.skip(i)[2]
                && s[i + 3] == s.skip(i)[3]);
            assert(s[i] == 'n' && s[i + 1] == 'u' && s[i + 2] == 'l' && s[i + 3] == 'l');
            assert(i + 4 <= s.len());
            assert(p_value(s, i) == Some((JsonValueV::Null, i + 4)));
        },
    }
}

pub proof fn lemma_parse_member(s: Seq<char>, i: int, name: Seq<char>, v: JsonValueV, rest: Seq<char>)
    requires
        0 <= i <= s.len(),
        s.skip(i) == enc_member(name, v) + rest,
    ensures
        i < s.len(),
        s[i] == '"',
        p_member(s, i) == Some(((name, v), i + enc_member(name, v).len())),
{
    assert(s.skip(i).len() == s.len() - i);
    let tail1 = seq![':'] + enc_value(v) + rest;
    assert(s.skip(i) =~= enc_text(name) + tail1);
    lemma_parse_text(s, i, name, tail1);
    let j = i + enc_text(name).len();
    assert(s.skip(i)[j - i] == tail1[0]);
    assert(s[j] == s.skip(i)[j - i]);
    assert(s[j] == ':');
    assert(j < s.len());
    assert(!is_ws(':'));
    assert(skip_ws(s, j) == j);
    assert(s.skip(j + 1) =~= s.skip(i).skip(j + 1 - i));
    assert(s.skip(i).skip(j + 1 - i) =~= enc_value(v) + rest);
    lemma_parse_value(s, j + 1, v, rest);
    assert(!is_ws(s[j + 1]));
    assert(skip_ws(s, j + 1) == j + 1);
    assert(p_member(s, i) == Some(((name, v), j + 1 + enc_value(v).len())));
    assert(j + 1 + enc_value(v).len() == i + enc_member(name, v).len());
}

#[verifier::rlimit(60)]
pub proof fn lemma_parse_members(
    s: Seq<char>,
    i: int,
    ms: Seq<(Seq<char>, JsonValueV)>,
    rest: Seq<char>,
)
    requires
        0 <= i <= s.len(),
        ms.len() >= 1,
        s.skip(i) == enc_members(ms) + seq!['}'] + rest,
    ensures
        p_members(s, i) == Some((ms, i + enc_members(ms).len() + 1)),
    decreases ms.len(),
{
    assert(s.skip(i).len() == s.len() - i);
    let name = ms[0].0;
    let v = ms[0].1;
    if ms.len() == 1 {
        assert(enc_members(ms) == enc_member(name, v));
        let tail = seq!['}'] + rest;
        assert(s.skip(i) =~= enc_member(name, v) + tail);
        lemma_parse_member(s, i, name, v, tail);
        let e = i + enc_member(name, v).len();
        assert(s.skip(i)[e - i] == tail[0]);
        assert(s[e] == s.skip(i)[e - i]);
        assert(s[e] == '}');
        assert(e < s.len());
        assert(!is_ws('}'));
        assert(skip_ws(s, e) == e);
        assert(p_members(s, i) == Some((seq![(name, v)], e + 1)));
        assert(seq![(name, v)] =~= ms);
    } else {
        let ms1 = ms.skip(1);
        assert(enc_members(ms) == enc_member(name, v) + seq![','] + enc_members(ms1));
        let tail = seq![','] + enc_members(ms1) + seq!['}'] + rest;
        assert(s.skip(i) =~= enc_member(name, v) + tail);
        lemma_parse_member(s, i, name, v, tail);
        let e = i + enc_member(name, v).len();
        assert(s.skip(i)[e - i] == tail[0]);
        assert(s[e] == s.skip(i)[e - i]);
        assert(s[e] == ',');
        assert(e < s.len());
        assert(!is_ws(','));
        assert(skip_ws(s, e) == e);
        assert(s[e] != '}');
        // the next member starts right after the comma with its opening quote
        let n = e + 1;
        assert(s.skip(n) =~= s.skip(i).skip(n - i));
        assert(s.skip(i).skip(n - i) =~= enc_members(ms1) + seq!['}'] + rest);
        assert(enc_members(ms1)[0] == '"') by {
            let name1 = ms1[0].0;
            let v1 = ms1[0].1;
            if ms1.len() == 1 {
                assert(enc_members(ms1) == enc_member(name1, v1));
            } else {
                assert(enc_members(ms1) == enc_member(name1, v1) + seq![','] + enc_members(
                    ms1.skip(1),
                ));
            }
            assert(enc_member(name1, v1)[0] == '"');
        }
        assert(s.skip(n)[0] == '"');
        assert(s[n] == s.skip(n)[0]);
        assert(!is_ws(s[n]));
        assert(skip_ws(s, n) == n);
        assert(n <= s.len());
        lemma_parse_members(s, n, ms1, rest);
        assert(p_members(s, n) == Some((ms1, n + enc_members(ms1).len() + 1)));
        assert(p_members(s, i) == Some((seq![(name, v)] + ms1, n + enc_members(ms1).len() + 1)));
        assert(seq![(name, v)] + ms1 =~= ms);
        assert(n + enc_members(ms1).len() + 1 == i + enc_members(ms).len() + 1);
    }
}

/// The round trip of a whole object: what the encoder writes, the
/// parser reads back as the same member list.
pub proof fn lemma_parse_enc_object(ms: Seq<(Seq<char>, JsonValueV)>)
    ensures
        parse_object(enc_object(ms)) == Some(ms),
{
    let s = enc_object(ms);
    assert(s[0] == '{');
    assert(!is_ws('{'));
    assert(skip_ws(s, 0) == 0);
    if ms.len() == 0 {
        assert(enc_members(ms) == Seq::<char>::empty());
        assert(s =~= seq!['{', '}']);
        assert(s[1] == '}');
        assert(!is_ws('}'));
        assert(skip_ws(s, 1) == 1);
        assert(p_object(s) == Some((Seq::<(Seq<char>, JsonValueV)>::empty(), 2int)));
        assert(skip_ws(s, 2) == 2);
        assert(parse_object(s) == Some(ms));
    } else {
        assert(s.skip(1) =~= enc_members(ms) + seq!['}'] + Seq::<char>::empty());
        assert(enc_members(ms)[0] == '"') by {
            let name0 = ms[0].0;
            let v0 = ms[0].1;
            if ms.len() == 1 {
                assert(enc_members(ms) == enc_member(name0, v0));
            } else {
                assert(enc_members(ms) == enc_member(name0, v0) + seq![','] + enc_members(
                    ms.skip(1),
                ));
            }
            assert(enc_member(name0, v0)[0] == '"');
        }
        assert(s.skip(1)[0] == '"');
        assert(s[1] == s.skip(1)[0]);
        assert(!is_ws(s[1]));
        assert(skip_ws(s, 1) == 1);
        assert(s[1] != '}');
        lemma_parse_members(s, 1, ms, Seq::<char>::empty());
        let e: int = 1 + enc_members(ms).len() as int + 1;
        assert(p_members(s, 1) == Some((ms, e)));
        assert(p_object(s) == Some((ms, e)));
        assert(e == s.len());
        assert(skip_ws(s, e) == e);
        assert(parse_object(s) == Some(ms));
    }
}

/// The lower-case hexadecimal digit, computed.
pub fn hex_digit_exec(n: u32) -> (c: char)
    requires
        n < 16,
    ensures
        c == hex_digit(n as int),
{
    match n {
        0 => '0',
        1 => '1',
        2 => '2',
        3 => '3',
        4 => '4',
        5 => '5',
        6 => '6',
        7 => '7',
        8 => '8',
        9 => '9',
        10 => 'a',
        11 => 'b',
        12 => 'c',
        13 => 'd',
        14 => 'e',
        _ => 'f',
    }
}

/// Appends the escaped form of one character.
fn escape_char_into(out: &mut String, c: char)
    ensures
        final(out)@ == old(out)@ + esc_char(c),
{
    if c == '"' {
        push_char(out, '\\');
        push_char(out, '"');
    } else if c == '\\' {
        push_char(out, '\\');
        push_char(out, '\\');
    } else if c == '\u{8}' {
        push_char(out, '\\');
        push_char(out, 'b');
    } else if c == '\u{9}' {
        push_char(out, '\\');
        push_char(out, 't');
    } else if c == '\u{a}' {
        push_char(out, '\\');
        push_char(out, 'n');
    } else if c == '\u{c}' {
        push_char(out, '\\');
        push_char(out, 'f');
    } else if c == '\u{d}' {
        push_char(out, '\\');
        push_char(out, 'r');
    } else if (c as u32) < 32 {
        let v = c as u32;
        push_char(out, '\\');
        push_char(out, 'u');
        push_char(out, '0');
        push_char(out, '0');
        push_char(out, hex_digit_exec(v / 16));
        push_char(out, hex_digit_exec(v % 16));
    } else {
        push_char(out, c);
    }
    proof {
        assert(final(out)@ =~= old(out)@ + esc_char(c));
    }
}

/// Appends a quoted, escaped string token.
fn encode_text_into(out: &mut String, s: &str)
    ensures
        final(out)@ == old(out)@ + enc_text(s@),
{
    let n = s.unicode_len();
    push_char(out, '"');
    let mut i: usize = 0;
    proof {
        assert(s@.take(0) =~= Seq::<char>::empty());
    }
    while i < n
        invariant
            n == s@.len(),
            i <= n,
            out@ == old(out)@ + seq!['"'] + esc_str(s@.take(i as int)),
        decreases n - i,
    {
        let c = s.get_char(i);
        escape_char_into(out, c);
        proof {
            assert(s@.take(i + 1 as int) =~= s@.take(i as int).push(s@[i as int]));
            lemma_esc_str_snoc(s@.take(i as int), s@[i as int]);
        }
        i += 1;
    }
    push_char(out, '"');
    proof {
        assert(s@.take(n as int) =~= s@);
        assert(final(out)@ =~= old(out)@ + enc_text(s@));
    }
}

/// Appends an encoded member value.
fn encode_value_into(out: &mut String, v: &JsonValue)
    ensures
        final(out)@ == old(out)@ + enc_value(v@),
{
    match v {
        JsonValue::Text(s) => {
            encode_text_into(out, s.as_str());
        },
        JsonValue::Null => {
            push_char(out, 'n');
            push_char(out, 'u');
            push_char(out, 'l');
            push_char(out, 'l');
            proof {
                assert(final(out)@ =~= old(out)@ + enc_value(v@));
            }
        },
    }
}

pub proof fn lemma_enc_members_app(a: Seq<(Seq<char>, JsonValueV)>, b: Seq<(Seq<char>, JsonValueV)>)
    requires
        a.len() >= 1,
        b.len() >= 1,
    ensures
        enc_members(a + b) == enc_members(a) + seq![','] + enc_members(b),
    decreases a.len(),
{
    if a.len() == 1 {
        assert((a + b)[0] == a[0]);
        assert((a + b).len() >= 2);
        assert((a + b).skip(1) =~= b);
        assert(enc_members(a + b) =~= enc_members(a) + seq![','] + enc_members(b));
    } else {
        assert((a + b)[0] == a[0]);
        assert((a + b).skip(1) =~= a.skip(1) + b);
        lemma_enc_members_app(a.skip(1), b);
        assert(enc_members(a + b) =~= enc_members(a) + seq![','] + enc_members(b));
    }
}

/// Encodes a member list as one JSON object.
pub fn encode_object(ms: &Vec<JsonMember>) -> (r: String)
    ensures
        r@ == enc_object(member_views(ms@)),
{
    let mut out = String::new();
    push_char(&mut out, '{');
    let mut i: usize = 0;
    proof {
        assert(member_views(ms@).take(0) =~= member_views(ms@.take(0)));
        assert(out@ =~= seq!['{'] + enc_members(member_views(ms@).take(0)));
    }
    while i < ms.len()
        invariant
            i <= ms@.len(),
            out@ == seq!['{'] + enc_members(member_views(ms@).take(i as int)),
        decreases ms@.len() - i,
    {
        if i > 0 {
            push_char(&mut out, ',');
        }
        let ghost pre = out@;
        let ghost mvs = member_views(ms@);
        encode_text_into(&mut out, ms[i].name.as_str());
        push_char(&mut out, ':');
        encode_value_into(&mut out, &ms[i].value);
        proof {
            let prefix = mvs.take(i as int);
            let entry = mvs[i as int];
            assert(entry == (ms@[i as int].name@, ms@[i as int].value@));
            assert(out@ =~= pre + enc_member(entry.0, entry.1));
            assert(mvs.take(i + 1 as int) =~= prefix.push(entry));
            if i == 0 {
                assert(prefix.push(entry) =~= seq![entry]);
                assert(enc_members(seq![entry]) == enc_member(entry.0, entry.1));
                assert(out@ =~= seq!['{'] + enc_members(mvs.take(i + 1 as int)));
            } else {
                assert(prefix.push(entry) =~= prefix + seq![entry]);
                lemma_enc_members_app(prefix, seq![entry]);
                assert(enc_members(seq![entry]) == enc_member(entry.0, entry.1));
                assert(out@ =~= seq!['{'] + enc_members(mvs.take(i + 1 as int)));
            }
        }
        i += 1;
    }
    push_char(&mut out, '}');
    proof {
        assert(member_views(ms@).take(ms@.len() as int) =~= member_views(ms@));
        assert(out@ =~= enc_object(member_views(ms@)));
    }
    out
}

} // verus!
