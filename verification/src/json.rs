//! A verified parser for the JSON subset in which the bundled resources are
//! written. Documents of this subset hold strings, arrays of strings, objects
//! whose member values are strings or arrays of strings, and arrays of such
//! objects — exactly what the word dictionary and the symbol catalog need.
//! String literals follow full JSON syntax, escapes and surrogate pairs
//! included; anything outside the subset is rejected.
//!
//! Each executable function mirrors a specification function over the
//! document's character sequence, so the grammar below is the single source
//! of truth for what parses and to what.

use crate::text::char_from_u32;
use crate::text::string_from_chars;
use vstd::prelude::*;

verus! {

/// A parsed value: a string, or an array of strings.
pub enum JsonValue {
    Text(String),
    List(Vec<String>),
}

/// The mathematical model of a parsed value.
pub ghost enum ValueModel {
    Text(Seq<char>),
    List(Seq<Seq<char>>),
}

impl View for JsonValue {
    type V = ValueModel;

    open spec fn view(&self) -> ValueModel {
        match self {
            JsonValue::Text(s) => ValueModel::Text(s@),
            JsonValue::List(v) => ValueModel::List(v.deep_view()),
        }
    }
}

/// An object: its members in document order.
pub type JsonObject = Vec<(String, JsonValue)>;

/// The model of an object's member list.
pub open spec fn members_view(ms: Seq<(String, JsonValue)>) -> Seq<(Seq<char>, ValueModel)> {
    ms.map_values(|m: (String, JsonValue)| (m.0@, m.1@))
}

/// The model of a list of objects.
pub open spec fn objects_view(os: Seq<JsonObject>) -> Seq<Seq<(Seq<char>, ValueModel)>> {
    os.map_values(|o: JsonObject| members_view(o@))
}

/// Every member value of the object is a string.
pub open spec fn block_is_textual(ms: Seq<(Seq<char>, ValueModel)>) -> bool {
    forall|k: int| 0 <= k < ms.len() ==> (#[trigger] ms[k]).1 is Text
}

/// The word → transcription pairs of an object whose values are strings.
pub open spec fn block_pairs(ms: Seq<(Seq<char>, ValueModel)>) -> Seq<(Seq<char>, Seq<char>)> {
    ms.map_values(|m: (Seq<char>, ValueModel)| (m.0, m.1->Text_0))
}

/// No two elements share a key.
pub open spec fn keys_distinct<V>(ps: Seq<(Seq<char>, V)>) -> bool {
    forall|a: int, b: int| 0 <= a < b < ps.len() ==> (#[trigger] ps[a]).0 != (#[trigger] ps[b]).0
}

/// JSON whitespace.
pub open spec fn is_ws_char(c: char) -> bool {
    c == ' ' || c == '\t' || c == '\n' || c == '\r'
}

/// The first position at or after `i` that holds no whitespace.
pub open spec fn skip_ws(s: Seq<char>, i: int) -> int
    decreases s.len() - i,
{
    if 0 <= i < s.len() && is_ws_char(s[i]) {
        skip_ws(s, i + 1)
    } else {
        i
    }
}

pub proof fn lemma_skip_ws_bounds(s: Seq<char>, i: int)
    requires
        0 <= i <= s.len(),
    ensures
        i <= skip_ws(s, i) <= s.len(),
    decreases s.len() - i,
{
    if i < s.len() && is_ws_char(s[i]) {
        lemma_skip_ws_bounds(s, i + 1);
    }
}

/// Hexadecimal digit, as JSON allows inside `\u` escapes.
pub open spec fn is_hex_digit(c: char) -> bool {
    (48 <= c as u32 && c as u32 <= 57) || (65 <= c as u32 && c as u32 <= 70) || (97 <= c as u32
        && c as u32 <= 102)
}

/// Numeric value of a hexadecimal digit.
pub open spec fn hex_digit_val(c: char) -> int
    recommends
        is_hex_digit(c),
{
    if 48 <= c as u32 && c as u32 <= 57 {
        c as u32 - 48
    } else if 65 <= c as u32 && c as u32 <= 70 {
        c as u32 - 55
    } else {
        c as u32 - 87
    }
}

/// Four hexadecimal digits stand at position `i`.
pub open spec fn hex4_ok(s: Seq<char>, i: int) -> bool {
    &&& 0 <= i
    &&& i + 4 <= s.len()
    &&& is_hex_digit(s[i])
    &&& is_hex_digit(s[i + 1])
    &&& is_hex_digit(s[i + 2])
    &&& is_hex_digit(s[i + 3])
}

/// The value of the four hexadecimal digits at position `i`.
pub open spec fn hex4_val(s: Seq<char>, i: int) -> int
    recommends
        hex4_ok(s, i),
{
    4096 * hex_digit_val(s[i]) + 256 * hex_digit_val(s[i + 1]) + 16 * hex_digit_val(s[i + 2])
        + hex_digit_val(s[i + 3])
}

/// The character a simple (single-letter) escape stands for.
pub open spec fn simple_unescape(c: char) -> Option<char> {
    if c == '"' {
        Some('"')
    } else if c == '\\' {
        Some('\\')
    } else if c == '/' {
        Some('/')
    } else if c == 'b' {
        Some('\u{0008}')
    } else if c == 'f' {
        Some('\u{000C}')
    } else if c == 'n' {
        Some('\n')
    } else if c == 'r' {
        Some('\r')
    } else if c == 't' {
        Some('\t')
    } else {
        None
    }
}

/// Parse the body of a string literal, starting just after the opening
/// quote; yields the decoded characters and the position after the closing
/// quote. Unescaped control characters and malformed escapes are rejected,
/// and a `\u` escape in the surrogate range must form a valid pair.
pub open spec fn parse_string_body(s: Seq<char>, i: int) -> Option<(Seq<char>, int)>
    decreases s.len() - i,
{
    if i < 0 || i >= s.len() {
        None
    } else if s[i] == '"' {
        Some((Seq::empty(), i + 1))
    } else if s[i] == '\\' {
        if i + 1 < s.len() && simple_unescape(s[i + 1]) is Some {
            match parse_string_body(s, i + 2) {
                Some((t, j)) => Some((seq![simple_unescape(s[i + 1])->Some_0] + t, j)),
                None => None,
            }
        } else if i + 1 < s.len() && s[i + 1] == 'u' && hex4_ok(s, i + 2) {
            let h: int = hex4_val(s, i + 2);
            if h < 0xD800 || h >= 0xE000 {
                match parse_string_body(s, i + 6) {
                    Some((t, j)) => Some((seq![((h as u32) as char)] + t, j)),
                    None => None,
                }
            } else if h < 0xDC00 {
                if i + 7 < s.len() && s[i + 6] == '\\' && s[i + 7] == 'u' && hex4_ok(s, i + 8) {
                    let l: int = hex4_val(s, i + 8);
                    if 0xDC00 <= l && l < 0xE000 {
                        let cp: int = 0x10000 + (h - 0xD800) * 0x400 + (l - 0xDC00);
                        match parse_string_body(s, i + 12) {
                            Some((t, j)) => Some((seq![((cp as u32) as char)] + t, j)),
                            None => None,
                        }
                    } else {
                        None
                    }
                } else {
                    None
                }
            } else {
                None
            }
        } else {
            None
        }
    } else if (s[i] as u32) < 0x20 {
        None
    } else {
        match parse_string_body(s, i + 1) {
            Some((t, j)) => Some((seq![s[i]] + t, j)),
            None => None,
        }
    }
}

pub proof fn lemma_string_body_progress(s: Seq<char>, i: int)
    ensures
        parse_string_body(s, i) matches Some((t, j)) ==> i < j <= s.len(),
    decreases s.len() - i,
{
    if 0 <= i < s.len() {
        lemma_string_body_progress(s, i + 1);
        if i + 2 <= s.len() {
            lemma_string_body_progress(s, i + 2);
        }
        if i + 6 <= s.len() {
            lemma_string_body_progress(s, i + 6);
        }
        if i + 12 <= s.len() {
            lemma_string_body_progress(s, i + 12);
        }
    }
}

/// Parse a string literal at `i`, opening quote included.
pub open spec fn parse_string_at(s: Seq<char>, i: int) -> Option<(Seq<char>, int)> {
    if 0 <= i < s.len() && s[i] == '"' {
        parse_string_body(s, i + 1)
    } else {
        None
    }
}

pub proof fn lemma_string_progress(s: Seq<char>, i: int)
    ensures
        parse_string_at(s, i) matches Some((t, j)) ==> i < j <= s.len(),
{
    if 0 <= i < s.len() && s[i] == '"' {
        lemma_string_body_progress(s, i + 1);
    }
}

/// Parse the elements of a non-empty array of strings: a string at `i`,
/// comma-separated repetitions, closed by `]`.
pub open spec fn parse_string_items(s: Seq<char>, i: int) -> Option<(Seq<Seq<char>>, int)>
    decreases s.len() - i,
{
    match parse_string_at(s, i) {
        None => None,
        Some((t, j)) => {
            let k: int = skip_ws(s, j);
            if k < s.len() && s[k] == ',' {
                let m: int = skip_ws(s, k + 1);
                proof {
                    lemma_string_progress(s, i);
                    lemma_skip_ws_bounds(s, j);
                    lemma_skip_ws_bounds(s, k + 1);
                }
                match parse_string_items(s, m) {
                    None => None,
                    Some((rest, e)) => Some((seq![t] + rest, e)),
                }
            } else if k < s.len() && s[k] == ']' {
                Some((seq![t], k + 1))
            } else {
                None
            }
        },
    }
}

pub proof fn lemma_string_items_progress(s: Seq<char>, i: int)
    ensures
        parse_string_items(s, i) matches Some((v, j)) ==> i < j <= s.len(),
    decreases s.len() - i,
{
    lemma_string_progress(s, i);
    match parse_string_at(s, i) {
        None => {},
        Some((t, j)) => {
            let k: int = skip_ws(s, j);
            lemma_skip_ws_bounds(s, j);
            if k < s.len() && s[k] == ',' {
                lemma_skip_ws_bounds(s, k + 1);
                lemma_string_items_progress(s, skip_ws(s, k + 1));
            }
        },
    }
}

/// Parse an array of strings at `i`, at the opening bracket.
pub open spec fn parse_strarray(s: Seq<char>, i: int) -> Option<(Seq<Seq<char>>, int)> {
    if 0 <= i < s.len() && s[i] == '[' {
        let j: int = skip_ws(s, i + 1);
        if j < s.len() && s[j] == ']' {
            Some((Seq::empty(), j + 1))
        } else {
            parse_string_items(s, j)
        }
    } else {
        None
    }
}

pub proof fn lemma_strarray_progress(s: Seq<char>, i: int)
    ensures
        parse_strarray(s, i) matches Some((v, j)) ==> i < j <= s.len(),
{
    if 0 <= i < s.len() && s[i] == '[' {
        lemma_skip_ws_bounds(s, i + 1);
        lemma_string_items_progress(s, skip_ws(s, i + 1));
    }
}

/// Parse a value — a string or an array of strings — at `i`.
pub open spec fn parse_value(s: Seq<char>, i: int) -> Option<(ValueModel, int)> {
    if 0 <= i < s.len() && s[i] == '"' {
        match parse_string_at(s, i) {
            Some((t, j)) => Some((ValueModel::Text(t), j)),
            None => None,
        }
    } else if 0 <= i < s.len() && s[i] == '[' {
        match parse_strarray(s, i) {
            Some((v, j)) => Some((ValueModel::List(v), j)),
            None => None,
        }
    } else {
        None
    }
}

pub proof fn lemma_value_progress(s: Seq<char>, i: int)
    ensures
        parse_value(s, i) matches Some((v, j)) ==> i < j <= s.len(),
{
    lemma_string_progress(s, i);
    lemma_strarray_progress(s, i);
}

/// Parse one object member, `"key": value`, at `i`.
pub open spec fn parse_member(s: Seq<char>, i: int) -> Option<((Seq<char>, ValueModel), int)> {
    match parse_string_at(s, i) {
        None => None,
        Some((key, j)) => {
            let k: int = skip_ws(s, j);
            if k < s.len() && s[k] == ':' {
                let m: int = skip_ws(s, k + 1);
                match parse_value(s, m) {
                    Some((v, e)) => Some(((key, v), e)),
                    None => None,
                }
            } else {
                None
            }
        },
    }
}

pub proof fn lemma_member_progress(s: Seq<char>, i: int)
    ensures
        parse_member(s, i) matches Some((m, j)) ==> i < j <= s.len(),
{
    lemma_string_progress(s, i);
    match parse_string_at(s, i) {
        None => {},
        Some((key, j)) => {
            let k: int = skip_ws(s, j);
            lemma_skip_ws_bounds(s, j);
            if k < s.len() && s[k] == ':' {
                lemma_skip_ws_bounds(s, k + 1);
                lemma_value_progress(s, skip_ws(s, k + 1));
            }
        },
    }
}

/// Parse the members of a non-empty object: a member at `i`, comma-separated
/// repetitions, closed by `}`.
pub open spec fn parse_members(s: Seq<char>, i: int) -> Option<
    (Seq<(Seq<char>, ValueModel)>, int),
>
    decreases s.len() - i,
{
    match parse_member(s, i) {
        None => None,
        Some((m, j)) => {
            let k: int = skip_ws(s, j);
            if k < s.len() && s[k] == ',' {
                let n: int = skip_ws(s, k + 1);
                proof {
                    lemma_member_progress(s, i);
                    lemma_skip_ws_bounds(s, j);
                    lemma_skip_ws_bounds(s, k + 1);
                }
                match parse_members(s, n) {
                    None => None,
                    Some((rest, e)) => Some((seq![m] + rest, e)),
                }
            } else if k < s.len() && s[k] == '}' {
                Some((seq![m], k + 1))
            } else {
                None
            }
        },
    }
}

pub proof fn lemma_members_progress(s: Seq<char>, i: int)
    ensures
        parse_members(s, i) matches Some((ms, j)) ==> i < j <= s.len(),
    decreases s.len() - i,
{
    lemma_member_progress(s, i);
    match parse_member(s, i) {
        None => {},
        Some((m, j)) => {
            let k: int = skip_ws(s, j);
            lemma_skip_ws_bounds(s, j);
            if k < s.len() && s[k] == ',' {
                lemma_skip_ws_bounds(s, k + 1);
                lemma_members_progress(s, skip_ws(s, k + 1));
            }
        },
    }
}

/// Parse an object at `i`, at the opening brace.
pub open spec fn parse_object(s: Seq<char>, i: int) -> Option<(Seq<(Seq<char>, ValueModel)>, int)> {
    if 0 <= i < s.len() && s[i] == '{' {
        let j: int = skip_ws(s, i + 1);
        if j < s.len() && s[j] == '}' {
            Some((Seq::empty(), j + 1))
        } else {
            parse_members(s, j)
        }
    } else {
        None
    }
}

pub proof fn lemma_object_progress(s: Seq<char>, i: int)
    ensures
        parse_object(s, i) matches Some((ms, j)) ==> i < j <= s.len(),
{
    if 0 <= i < s.len() && s[i] == '{' {
        lemma_skip_ws_bounds(s, i + 1);
        lemma_members_progress(s, skip_ws(s, i + 1));
    }
}

/// Parse the elements of a non-empty array of objects: an object at `i`,
/// comma-separated repetitions, closed by `]`.
pub open spec fn parse_object_items(s: Seq<char>, i: int) -> Option<
    (Seq<Seq<(Seq<char>, ValueModel)>>, int),
>
    decreases s.len() - i,
{
    match parse_object(s, i) {
        None => None,
        Some((o, j)) => {
            let k: int = skip_ws(s, j);
            if k < s.len() && s[k] == ',' {
                let n: int = skip_ws(s, k + 1);
                proof {
                    lemma_object_progress(s, i);
                    lemma_skip_ws_bounds(s, j);
                    lemma_skip_ws_bounds(s, k + 1);
                }
                match parse_object_items(s, n) {
                    None => None,
                    Some((rest, e)) => Some((seq![o] + rest, e)),
                }
            } else if k < s.len() && s[k] == ']' {
                Some((seq![o], k + 1))
            } else {
                None
            }
        },
    }
}

pub proof fn lemma_object_items_progress(s: Seq<char>, i: int)
    ensures
        parse_object_items(s, i) matches Some((os, j)) ==> i < j <= s.len(),
    decreases s.len() - i,
{
    lemma_object_progress(s, i);
    match parse_object(s, i) {
        None => {},
        Some((o, j)) => {
            let k: int = skip_ws(s, j);
            lemma_skip_ws_bounds(s, j);
            if k < s.len() && s[k] == ',' {
                lemma_skip_ws_bounds(s, k + 1);
                lemma_object_items_progress(s, skip_ws(s, k + 1));
            }
        },
    }
}

/// Parse an array of objects at `i`, at the opening bracket.
pub open spec fn parse_objects(s: Seq<char>, i: int) -> Option<
    (Seq<Seq<(Seq<char>, ValueModel)>>, int),
> {
    if 0 <= i < s.len() && s[i] == '[' {
        let j: int = skip_ws(s, i + 1);
        if j < s.len() && s[j] == ']' {
            Some((Seq::empty(), j + 1))
        } else {
            parse_object_items(s, j)
        }
    } else {
        None
    }
}

/// Parse a whole dictionary document:
/// `{ "entries": [ <object>, ... ] }`, whitespace allowed between tokens,
/// and nothing but whitespace after the closing brace. Yields the entry
/// blocks in document order.
pub open spec fn parse_dictionary_doc(s: Seq<char>) -> Option<Seq<Seq<(Seq<char>, ValueModel)>>> {
    let i: int = skip_ws(s, 0);
    if !(i < s.len() && s[i] == '{') {
        None
    } else {
        let j: int = skip_ws(s, i + 1);
        match parse_string_at(s, j) {
            None => None,
            Some((key, k)) => {
                if key != "entries"@ {
                    None
                } else {
                    let m: int = skip_ws(s, k);
                    if !(m < s.len() && s[m] == ':') {
                        None
                    } else {
                        let n: int = skip_ws(s, m + 1);
                        match parse_objects(s, n) {
                            None => None,
                            Some((blocks, e)) => {
                                let f: int = skip_ws(s, e);
                                if f < s.len() && s[f] == '}' && skip_ws(s, f + 1) == s.len() {
                                    Some(blocks)
                                } else {
                                    None
                                }
                            },
                        }
                    }
                }
            },
        }
    }
}

/// Parse a whole symbol-catalog document: an array of objects, with nothing
/// but whitespace around it. An empty array is a valid document.
pub open spec fn parse_catalog_doc(s: Seq<char>) -> Option<Seq<Seq<(Seq<char>, ValueModel)>>> {
    let i: int = skip_ws(s, 0);
    match parse_objects(s, i) {
        None => None,
        Some((os, j)) => {
            if skip_ws(s, j) == s.len() {
                Some(os)
            } else {
                None
            }
        },
    }
}

/// The first non-whitespace position at or after `i`.
fn ws_end(s: &Vec<char>, i: usize) -> (r: usize)
    requires
        i <= s@.len(),
    ensures
        r == skip_ws(s@, i as int),
        i <= r <= s@.len(),
{
    let mut j: usize = i;
    while j < s.len() && (s[j] == ' ' || s[j] == '\t' || s[j] == '\n' || s[j] == '\r')
        invariant
            i <= j <= s@.len(),
            skip_ws(s@, i as int) == skip_ws(s@, j as int),
        decreases s@.len() - j,
    {
        j = j + 1;
    }
    j
}

fn hex_digit(c: char) -> (r: Option<u32>)
    ensures
        match r {
            Some(v) => is_hex_digit(c) && v == hex_digit_val(c) && v < 16,
            None => !is_hex_digit(c),
        },
{
    let u: u32 = c as u32;
    if 48 <= u && u <= 57 {
        Some(u - 48)
    } else if 65 <= u && u <= 70 {
        Some(u - 55)
    } else if 97 <= u && u <= 102 {
        Some(u - 87)
    } else {
        None
    }
}

fn hex4(s: &Vec<char>, i: usize) -> (r: Option<u32>)
    ensures
        match r {
            Some(v) => hex4_ok(s@, i as int) && v == hex4_val(s@, i as int) && v <= 0xFFFF,
            None => !hex4_ok(s@, i as int),
        },
{
    if s.len() < 4 {
        return None;
    }
    if i > s.len() - 4 {
        return None;
    }
    let d0: u32 = match hex_digit(s[i]) {
        Some(v) => v,
        None => {
            return None;
        },
    };
    let d1: u32 = match hex_digit(s[i + 1]) {
        Some(v) => v,
        None => {
            return None;
        },
    };
    let d2: u32 = match hex_digit(s[i + 2]) {
        Some(v) => v,
        None => {
            return None;
        },
    };
    let d3: u32 = match hex_digit(s[i + 3]) {
        Some(v) => v,
        None => {
            return None;
        },
    };
    Some(4096 * d0 + 256 * d1 + 16 * d2 + d3)
}

fn simple_unescape_exec(c: char) -> (r: Option<char>)
    ensures
        r == simple_unescape(c),
{
    if c == '"' {
        Some('"')
    } else if c == '\\' {
        Some('\\')
    } else if c == '/' {
        Some('/')
    } else if c == 'b' {
        Some('\u{0008}')
    } else if c == 'f' {
        Some('\u{000C}')
    } else if c == 'n' {
        Some('\n')
    } else if c == 'r' {
        Some('\r')
    } else if c == 't' {
        Some('\t')
    } else {
        None
    }
}

fn string_body(s: &Vec<char>, i: usize) -> (r: Option<(Vec<char>, usize)>)
    requires
        i <= s@.len(),
    ensures
        match r {
            Some((t, j)) => parse_string_body(s@, i as int) == Some((t@, j as int)) && i < j
                <= s@.len(),
            None => parse_string_body(s@, i as int) is None,
        },
    decreases s@.len() - i,
{
    if i >= s.len() {
        return None;
    }
    let c: char = s[i];
    if c == '"' {
        let empty: Vec<char> = Vec::new();
        proof {
            assert(empty@ =~= Seq::<char>::empty());
        }
        return Some((empty, i + 1));
    }
    if c == '\\' {
        if i + 1 >= s.len() {
            return None;
        }
        let e: char = s[i + 1];
        match simple_unescape_exec(e) {
            Some(u) => {
                return match string_body(s, i + 2) {
                    Some((mut t, j)) => {
                        let ghost t0 = t@;
                        t.insert(0, u);
                        proof {
                            assert(t@ =~= seq![u] + t0);
                        }
                        Some((t, j))
                    },
                    None => None,
                };
            },
            None => {},
        }
        if e != 'u' {
            return None;
        }
        let h: u32 = match hex4(s, i + 2) {
            Some(v) => v,
            None => {
                return None;
            },
        };
        if h < 0xD800 || h >= 0xE000 {
            let hc: char = match char_from_u32(h) {
                Some(c2) => c2,
                None => {
                    return None;
                },
            };
            return match string_body(s, i + 6) {
                Some((mut t, j)) => {
                    let ghost t0 = t@;
                    t.insert(0, hc);
                    proof {
                        assert(t@ =~= seq![hc] + t0);
                    }
                    Some((t, j))
                },
                None => None,
            };
        }
        if h < 0xDC00 {
            if s.len() - (i + 6) < 2 {
                return None;
            }
            if s[i + 6] != '\\' || s[i + 7] != 'u' {
                return None;
            }
            let l: u32 = match hex4(s, i + 8) {
                Some(v) => v,
                None => {
                    return None;
                },
            };
            if !(0xDC00 <= l && l < 0xE000) {
                return None;
            }
            let cp: u32 = 0x10000 + (h - 0xD800) * 0x400 + (l - 0xDC00);
            let pc: char = match char_from_u32(cp) {
                Some(c2) => c2,
                None => {
                    return None;
                },
            };
            return match string_body(s, i + 12) {
                Some((mut t, j)) => {
                    let ghost t0 = t@;
                    t.insert(0, pc);
                    proof {
                        assert(t@ =~= seq![pc] + t0);
                    }
                    Some((t, j))
                },
                None => None,
            };
        }
        return None;
    }
    if (c as u32) < 0x20 {
        return None;
    }
    match string_body(s, i + 1) {
        Some((mut t, j)) => {
            let ghost t0 = t@;
            t.insert(0, c);
            proof {
                assert(t@ =~= seq![c] + t0);
            }
            Some((t, j))
        },
        None => None,
    }
}

fn string_at(s: &Vec<char>, i: usize) -> (r: Option<(String, usize)>)
    requires
        i <= s@.len(),
    ensures
        match r {
            Some((t, j)) => parse_string_at(s@, i as int) == Some((t@, j as int)) && i < j
                <= s@.len(),
            None => parse_string_at(s@, i as int) is None,
        },
{
    if i >= s.len() {
        return None;
    }
    if s[i] != '"' {
        return None;
    }
    match string_body(s, i + 1) {
        Some((t, j)) => Some((string_from_chars(&t), j)),
        None => None,
    }
}

fn string_items(s: &Vec<char>, i: usize) -> (r: Option<(Vec<String>, usize)>)
    requires
        i <= s@.len(),
    ensures
        match r {
            Some((v, j)) => parse_string_items(s@, i as int) == Some((v.deep_view(), j as int))
                && i < j <= s@.len(),
            None => parse_string_items(s@, i as int) is None,
        },
    decreases s@.len() - i,
{
    match string_at(s, i) {
        None => None,
        Some((t, j)) => {
            let k: usize = ws_end(s, j);
            if k < s.len() && s[k] == ',' {
                let m: usize = ws_end(s, k + 1);
                match string_items(s, m) {
                    None => None,
                    Some((mut rest, e)) => {
                        let ghost rest0 = rest.deep_view();
                        let ghost tv = t@;
                        rest.insert(0, t);
                        proof {
                            assert(rest.deep_view() =~= seq![tv] + rest0);
                        }
                        Some((rest, e))
                    },
                }
            } else if k < s.len() && s[k] == ']' {
                let items: Vec<String> = vec![t];
                proof {
                    assert(items.deep_view() =~= seq![items@[0]@]);
                }
                Some((items, k + 1))
            } else {
                None
            }
        },
    }
}

fn strarray_at(s: &Vec<char>, i: usize) -> (r: Option<(Vec<String>, usize)>)
    requires
        i <= s@.len(),
    ensures
        match r {
            Some((v, j)) => parse_strarray(s@, i as int) == Some((v.deep_view(), j as int)) && i
                < j <= s@.len(),
            None => parse_strarray(s@, i as int) is None,
        },
{
    if i >= s.len() {
        return None;
    }
    if s[i] != '[' {
        return None;
    }
    let j: usize = ws_end(s, i + 1);
    if j < s.len() && s[j] == ']' {
        let empty: Vec<String> = Vec::new();
        proof {
            assert(empty.deep_view() =~= Seq::<Seq<char>>::empty());
        }
        Some((empty, j + 1))
    } else {
        string_items(s, j)
    }
}

fn value_at(s: &Vec<char>, i: usize) -> (r: Option<(JsonValue, usize)>)
    requires
        i <= s@.len(),
    ensures
        match r {
            Some((v, j)) => parse_value(s@, i as int) == Some((v@, j as int)) && i < j
                <= s@.len(),
            None => parse_value(s@, i as int) is None,
        },
{
    if i >= s.len() {
        return None;
    }
    if s[i] == '"' {
        match string_at(s, i) {
            Some((t, j)) => Some((JsonValue::Text(t), j)),
            None => None,
        }
    } else if s[i] == '[' {
        match strarray_at(s, i) {
            Some((v, j)) => Some((JsonValue::List(v), j)),
            None => None,
        }
    } else {
        None
    }
}

fn member_at(s: &Vec<char>, i: usize) -> (r: Option<((String, JsonValue), usize)>)
    requires
        i <= s@.len(),
    ensures
        match r {
            Some((m, j)) => parse_member(s@, i as int) == Some(((m.0@, m.1@), j as int)) && i < j
                <= s@.len(),
            None => parse_member(s@, i as int) is None,
        },
{
    match string_at(s, i) {
        None => None,
        Some((key, j)) => {
            let k: usize = ws_end(s, j);
            if k < s.len() && s[k] == ':' {
                let m: usize = ws_end(s, k + 1);
                match value_at(s, m) {
                    Some((v, e)) => Some(((key, v), e)),
                    None => None,
                }
            } else {
                None
            }
        },
    }
}

fn members(s: &Vec<char>, i: usize) -> (r: Option<(JsonObject, usize)>)
    requires
        i <= s@.len(),
    ensures
        match r {
            Some((ms, j)) => parse_members(s@, i as int) == Some((members_view(ms@), j as int))
                && i < j <= s@.len(),
            None => parse_members(s@, i as int) is None,
        },
    decreases s@.len() - i,
{
    match member_at(s, i) {
        None => None,
        Some((m, j)) => {
            let k: usize = ws_end(s, j);
            if k < s.len() && s[k] == ',' {
                let n: usize = ws_end(s, k + 1);
                match members(s, n) {
                    None => None,
                    Some((mut rest, e)) => {
                        let ghost rest0 = members_view(rest@);
                        let ghost mv = (m.0@, m.1@);
                        rest.insert(0, m);
                        proof {
                            assert(members_view(rest@) =~= seq![mv] + rest0);
                        }
                        Some((rest, e))
                    },
                }
            } else if k < s.len() && s[k] == '}' {
                let ghost mv = (m.0@, m.1@);
                let ms: JsonObject = vec![m];
                proof {
                    assert(members_view(ms@) =~= seq![mv]);
                }
                Some((ms, k + 1))
            } else {
                None
            }
        },
    }
}

fn object_at(s: &Vec<char>, i: usize) -> (r: Option<(JsonObject, usize)>)
    requires
        i <= s@.len(),
    ensures
        match r {
            Some((ms, j)) => parse_object(s@, i as int) == Some((members_view(ms@), j as int))
                && i < j <= s@.len(),
            None => parse_object(s@, i as int) is None,
        },
{
    if i >= s.len() {
        return None;
    }
    if s[i] != '{' {
        return None;
    }
    let j: usize = ws_end(s, i + 1);
    if j < s.len() && s[j] == '}' {
        let empty: JsonObject = Vec::new();
        proof {
            assert(members_view(empty@) =~= Seq::<(Seq<char>, ValueModel)>::empty());
        }
        Some((empty, j + 1))
    } else {
        members(s, j)
    }
}

fn object_items(s: &Vec<char>, i: usize) -> (r: Option<(Vec<JsonObject>, usize)>)
    requires
        i <= s@.len(),
    ensures
        match r {
            Some((os, j)) => parse_object_items(s@, i as int) == Some(
                (objects_view(os@), j as int),
            ) && i < j <= s@.len(),
            None => parse_object_items(s@, i as int) is None,
        },
    decreases s@.len() - i,
{
    match object_at(s, i) {
        None => None,
        Some((o, j)) => {
            let k: usize = ws_end(s, j);
            if k < s.len() && s[k] == ',' {
                let n: usize = ws_end(s, k + 1);
                match object_items(s, n) {
                    None => None,
                    Some((mut rest, e)) => {
                        let ghost rest0 = objects_view(rest@);
                        let ghost ov = members_view(o@);
                        rest.insert(0, o);
                        proof {
                            assert(objects_view(rest@) =~= seq![ov] + rest0);
                        }
                        Some((rest, e))
                    },
                }
            } else if k < s.len() && s[k] == ']' {
                let ghost ov = members_view(o@);
                let os: Vec<JsonObject> = vec![o];
                proof {
                    assert(objects_view(os@) =~= seq![ov]);
                }
                Some((os, k + 1))
            } else {
                None
            }
        },
    }
}

fn objects_at(s: &Vec<char>, i: usize) -> (r: Option<(Vec<JsonObject>, usize)>)
    requires
        i <= s@.len(),
    ensures
        match r {
            Some((os, j)) => parse_objects(s@, i as int) == Some((objects_view(os@), j as int))
                && i < j <= s@.len(),
            None => parse_objects(s@, i as int) is None,
        },
{
    if i >= s.len() {
        return None;
    }
    if s[i] != '[' {
        return None;
    }
    let j: usize = ws_end(s, i + 1);
    if j < s.len() && s[j] == ']' {
        let empty: Vec<JsonObject> = Vec::new();
        proof {
            assert(objects_view(empty@) =~= Seq::<Seq<(Seq<char>, ValueModel)>>::empty());
        }
        Some((empty, j + 1))
    } else {
        object_items(s, j)
    }
}

/// Parse a whole dictionary document; yields its entry blocks in document
/// order, or `None` where the text is not of the dictionary shape.
pub fn dictionary_doc(s: &Vec<char>) -> (r: Option<Vec<JsonObject>>)
    ensures
        match r {
            Some(blocks) => parse_dictionary_doc(s@) == Some(objects_view(blocks@)),
            None => parse_dictionary_doc(s@) is None,
        },
{
    let i: usize = ws_end(s, 0);
    if !(i < s.len() && s[i] == '{') {
        return None;
    }
    let j: usize = ws_end(s, i + 1);
    match string_at(s, j) {
        None => None,
        Some((key, k)) => {
            let entries_key: String = "entries".to_owned();
            if !(key == entries_key) {
                return None;
            }
            let m: usize = ws_end(s, k);
            if !(m < s.len() && s[m] == ':') {
                return None;
            }
            let n: usize = ws_end(s, m + 1);
            match objects_at(s, n) {
                None => None,
                Some((blocks, e)) => {
                    let f: usize = ws_end(s, e);
                    if f < s.len() && s[f] == '}' {
                        let g: usize = ws_end(s, f + 1);
                        if g == s.len() {
                            Some(blocks)
                        } else {
                            None
                        }
                    } else {
                        None
                    }
                },
            }
        },
    }
}

/// Parse a whole symbol-catalog document: an array of objects; yields the
/// objects in document order, or `None` where the text is not of that shape.
pub fn catalog_doc(s: &Vec<char>) -> (r: Option<Vec<JsonObject>>)
    ensures
        match r {
            Some(os) => parse_catalog_doc(s@) == Some(objects_view(os@)),
            None => parse_catalog_doc(s@) is None,
        },
{
    let i: usize = ws_end(s, 0);
    match objects_at(s, i) {
        None => None,
        Some((os, j)) => {
            let k: usize = ws_end(s, j);
            if k == s.len() {
                Some(os)
            } else {
                None
            }
        },
    }
}

} // verus!
