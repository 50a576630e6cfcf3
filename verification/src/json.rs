//! The JSON text handled by this crate, as its own verified grammar.
//!
//! The specification side is a deterministic recursive parser over
//! `Seq<char>`; every executable function is proved to return exactly what
//! the specification parser says. The grammar follows the JSON standard for
//! everything the client consumes (strings with escapes, integer numbers,
//! arrays, objects); the bodies of object members that the client ignores
//! are only checked for balanced brackets and well-formed strings.
use vstd::prelude::*;

use crate::dec::digit_char;
use crate::dec::digit_val;
use crate::dec::digits_val;
use crate::dec::is_digit;
use vstd::string::StrSliceExecFns;

verus! {

/// Whether a character is JSON whitespace.
pub open spec fn is_ws(c: char) -> bool {
    c == ' ' || c == '\t' || c == '\n' || c == '\r'
}

/// The first index at or after `i` holding a character that is not JSON
/// whitespace, or the end of the text.
pub open spec fn ws_end(s: Seq<char>, i: int) -> int
    decreases s.len() - i,
{
    if i < 0 || i >= s.len() {
        i
    } else if is_ws(s[i]) {
        ws_end(s, i + 1)
    } else {
        i
    }
}

/// Every character before the end of a digit run is a digit.
pub proof fn lemma_digits_end_digits(s: Seq<char>, i: int)
    requires
        0 <= i <= s.len(),
    ensures
        forall|t: int| i <= t < digits_end(s, i) ==> is_digit(#[trigger] s[t]),
    decreases s.len() - i,
{
    if i < s.len() && is_digit(s[i]) {
        lemma_digits_end_digits(s, i + 1);
    }
}

/// The first index at or after `i` holding a non-digit, or the end.
pub open spec fn digits_end(s: Seq<char>, i: int) -> int
    decreases s.len() - i,
{
    if i < 0 || i >= s.len() {
        i
    } else if is_digit(s[i]) {
        digits_end(s, i + 1)
    } else {
        i
    }
}

/// Characters that end an unquoted token: whitespace or a closing
/// structural character.
pub open spec fn is_delim(c: char) -> bool {
    is_ws(c) || c == ',' || c == ']' || c == '}'
}

/// The first index at or after `i` holding a delimiter, or the end.
pub open spec fn prim_end(s: Seq<char>, i: int) -> int
    decreases s.len() - i,
{
    if i < 0 || i >= s.len() {
        i
    } else if is_delim(s[i]) {
        i
    } else {
        prim_end(s, i + 1)
    }
}

/// The value of a hexadecimal digit character, if it is one.
pub open spec fn hex_val(c: char) -> Option<u32> {
    if 48 <= c as u32 <= 57 {
        Some((c as u32 - 48) as u32)
    } else if 97 <= c as u32 <= 102 {
        Some((c as u32 - 87) as u32)
    } else if 65 <= c as u32 <= 70 {
        Some((c as u32 - 55) as u32)
    } else {
        None
    }
}

/// Parses the body of a JSON string, `i` standing just after the opening
/// quote and `acc` holding the characters decoded so far. Yields the decoded
/// characters and the index just after the closing quote. Escape sequences
/// follow the JSON standard, including `\uXXXX` surrogate pairs; unescaped
/// control characters and lone surrogates are rejected.
pub open spec fn sp_string_body(s: Seq<char>, i: int, acc: Seq<char>) -> Option<(Seq<char>, int)>
    decreases s.len() - i, 1nat,
{
    if i < 0 || i >= s.len() {
        None
    } else {
        let c = s[i];
        if c == '"' {
            Some((acc, i + 1))
        } else if c == '\\' {
            if i + 2 > s.len() {
                None
            } else {
                let e = s[i + 1];
                if e == '"' {
                    sp_string_body(s, i + 2, acc.push('"'))
                } else if e == '\\' {
                    sp_string_body(s, i + 2, acc.push('\\'))
                } else if e == '/' {
                    sp_string_body(s, i + 2, acc.push('/'))
                } else if e == 'b' {
                    sp_string_body(s, i + 2, acc.push('\u{8}'))
                } else if e == 'f' {
                    sp_string_body(s, i + 2, acc.push('\u{c}'))
                } else if e == 'n' {
                    sp_string_body(s, i + 2, acc.push('\n'))
                } else if e == 'r' {
                    sp_string_body(s, i + 2, acc.push('\r'))
                } else if e == 't' {
                    sp_string_body(s, i + 2, acc.push('\t'))
                } else if e == 'u' {
                    if i + 6 > s.len() {
                        None
                    } else {
                        match (hex_val(s[i + 2]), hex_val(s[i + 3]), hex_val(s[i + 4]), hex_val(
                            s[i + 5],
                        )) {
                            (Some(h0), Some(h1), Some(h2), Some(h3)) => {
                                let cp = h0 * 4096 + h1 * 256 + h2 * 16 + h3;
                                if cp < 0xD800 || cp >= 0xE000 {
                                    sp_string_body(s, i + 6, acc.push((cp as u32) as char))
                                } else if cp < 0xDC00 {
                                    sp_string_pair(s, i, acc, cp as u32)
                                } else {
                                    None
                                }
                            },
                            _ => None,
                        }
                    }
                } else {
                    None
                }
            }
        } else if (c as u32) < 32 {
            None
        } else {
            sp_string_body(s, i + 1, acc.push(c))
        }
    }
}

/// The continuation of `sp_string_body` after a leading surrogate escape at
/// `i`: a trailing `\uXXXX` surrogate must follow, and the two combine into
/// one scalar value.
pub open spec fn sp_string_pair(s: Seq<char>, i: int, acc: Seq<char>, hi: u32) -> Option<
    (Seq<char>, int),
>
    decreases s.len() - i, 0nat,
{
    if i < 0 || i + 12 > s.len() {
        None
    } else if s[i + 6] == '\\' && s[i + 7] == 'u' {
        match (hex_val(s[i + 8]), hex_val(s[i + 9]), hex_val(s[i + 10]), hex_val(s[i + 11])) {
            (Some(h0), Some(h1), Some(h2), Some(h3)) => {
                let lo = h0 * 4096 + h1 * 256 + h2 * 16 + h3;
                if 0xDC00 <= lo < 0xE000 {
                    let scalar = 0x10000 + (hi - 0xD800) * 1024 + (lo - 0xDC00);
                    sp_string_body(s, i + 12, acc.push((scalar as u32) as char))
                } else {
                    None
                }
            },
            _ => None,
        }
    } else {
        None
    }
}

/// Relates an executable string-parse result to the specification one.
pub open spec fn str_res_ok(r: Option<(Vec<char>, usize)>, m: Option<(Seq<char>, int)>) -> bool {
    match (r, m) {
        (Some(p), Some(q)) => p.0@ == q.0 && p.1 == q.1,
        (None, None) => true,
        _ => false,
    }
}

/// Relies on char::from_u32: it returns `Some` exactly on Unicode scalar
/// values, that is everything below 0x110000 except the surrogate range.
#[verifier::external_body]
fn char_from_u32(u: u32) -> (r: Option<char>)
    ensures
        (u < 0xD800 || (0xE000 <= u && u < 0x110000)) ==> r == Some(u as char),
        !(u < 0xD800 || (0xE000 <= u && u < 0x110000)) ==> r is None,
{
    char::from_u32(u)
}

fn hex_val_exec(c: char) -> (r: Option<u32>)
    ensures
        r == hex_val(c),
{
    let u = c as u32;
    if 48 <= u && u <= 57 {
        Some(u - 48)
    } else if 97 <= u && u <= 102 {
        Some(u - 87)
    } else if 65 <= u && u <= 70 {
        Some(u - 55)
    } else {
        None
    }
}

fn is_ws_exec(c: char) -> (r: bool)
    ensures
        r == is_ws(c),
{
    c == ' ' || c == '\t' || c == '\n' || c == '\r'
}

fn is_delim_exec(c: char) -> (r: bool)
    ensures
        r == is_delim(c),
{
    is_ws_exec(c) || c == ',' || c == ']' || c == '}'
}

fn is_digit_exec(c: char) -> (r: bool)
    ensures
        r == is_digit(c),
{
    let u = c as u32;
    48 <= u && u <= 57
}

pub fn skip_ws(s: &Vec<char>, i: usize) -> (j: usize)
    requires
        i <= s.len(),
    ensures
        j == ws_end(s@, i as int),
        i <= j <= s.len(),
    decreases s.len() - i,
{
    if i < s.len() && is_ws_exec(s[i]) {
        skip_ws(s, i + 1)
    } else {
        i
    }
}

fn skip_digits(s: &Vec<char>, i: usize) -> (j: usize)
    requires
        i <= s.len(),
    ensures
        j == digits_end(s@, i as int),
        i <= j <= s.len(),
    decreases s.len() - i,
{
    if i < s.len() && is_digit_exec(s[i]) {
        skip_digits(s, i + 1)
    } else {
        i
    }
}

fn skip_prim(s: &Vec<char>, i: usize) -> (j: usize)
    requires
        i <= s.len(),
    ensures
        j == prim_end(s@, i as int),
        i <= j <= s.len(),
    decreases s.len() - i,
{
    if i < s.len() && !is_delim_exec(s[i]) {
        skip_prim(s, i + 1)
    } else {
        i
    }
}

/// Parses a string body as `sp_string_body` describes.
fn string_body(s: &Vec<char>, i: usize, acc: Vec<char>) -> (r: Option<(Vec<char>, usize)>)
    requires
        i <= s.len(),
    ensures
        str_res_ok(r, sp_string_body(s@, i as int, acc@)),
    decreases s.len() - i, 1nat,
{
    if i >= s.len() {
        return None;
    }
    let c = s[i];
    if c == '"' {
        Some((acc, i + 1))
    } else if c == '\\' {
        if s.len() - i < 2 {
            return None;
        }
        let e = s[i + 1];
        if e == '"' {
            let mut a = acc;
            a.push('"');
            string_body(s, i + 2, a)
        } else if e == '\\' {
            let mut a = acc;
            a.push('\\');
            string_body(s, i + 2, a)
        } else if e == '/' {
            let mut a = acc;
            a.push('/');
            string_body(s, i + 2, a)
        } else if e == 'b' {
            let mut a = acc;
            a.push('\u{8}');
            string_body(s, i + 2, a)
        } else if e == 'f' {
            let mut a = acc;
            a.push('\u{c}');
            string_body(s, i + 2, a)
        } else if e == 'n' {
            let mut a = acc;
            a.push('\n');
            string_body(s, i + 2, a)
        } else if e == 'r' {
            let mut a = acc;
            a.push('\r');
            string_body(s, i + 2, a)
        } else if e == 't' {
            let mut a = acc;
            a.push('\t');
            string_body(s, i + 2, a)
        } else if e == 'u' {
            if s.len() - i < 6 {
                return None;
            }
            let h0 = hex_val_exec(s[i + 2]);
            let h1 = hex_val_exec(s[i + 3]);
            let h2 = hex_val_exec(s[i + 4]);
            let h3 = hex_val_exec(s[i + 5]);
            match (h0, h1, h2, h3) {
                (Some(h0), Some(h1), Some(h2), Some(h3)) => {
                    let cp: u32 = h0 * 4096 + h1 * 256 + h2 * 16 + h3;
                    if cp < 0xD800 || cp >= 0xE000 {
                        let ch = char_from_u32(cp);
                        match ch {
                            Some(ch) => {
                                let mut a = acc;
                                a.push(ch);
                                string_body(s, i + 6, a)
                            },
                            None => None,  // unreachable: cp is a scalar value
                        }
                    } else if cp < 0xDC00 {
                        string_pair(s, i, acc, cp)
                    } else {
                        None
                    }
                },
                _ => None,
            }
        } else {
            None
        }
    } else if (c as u32) < 32 {
        None
    } else {
        let mut a = acc;
        a.push(c);
        string_body(s, i + 1, a)
    }
}

/// Parses the trailing half of a surrogate-pair escape, as
/// `sp_string_pair` describes.
fn string_pair(s: &Vec<char>, i: usize, acc: Vec<char>, hi: u32) -> (r: Option<(Vec<char>, usize)>)
    requires
        i <= s.len(),
        0xD800 <= hi < 0xDC00,
    ensures
        str_res_ok(r, sp_string_pair(s@, i as int, acc@, hi)),
    decreases s.len() - i, 0nat,
{
    if s.len() - i < 12 {
        return None;
    }
    if s[i + 6] == '\\' && s[i + 7] == 'u' {
        let h0 = hex_val_exec(s[i + 8]);
        let h1 = hex_val_exec(s[i + 9]);
        let h2 = hex_val_exec(s[i + 10]);
        let h3 = hex_val_exec(s[i + 11]);
        match (h0, h1, h2, h3) {
            (Some(h0), Some(h1), Some(h2), Some(h3)) => {
                let lo: u32 = h0 * 4096 + h1 * 256 + h2 * 16 + h3;
                if 0xDC00 <= lo && lo < 0xE000 {
                    let scalar: u32 = 0x10000 + (hi - 0xD800) * 1024 + (lo - 0xDC00);
                    let ch = char_from_u32(scalar);
                    match ch {
                        Some(ch) => {
                            let mut a = acc;
                            a.push(ch);
                            string_body(s, i + 12, a)
                        },
                        None => None,  // unreachable: the pair combines to a scalar value
                    }
                } else {
                    None
                }
            },
            _ => None,
        }
    } else {
        None
    }
}

} // verus!

verus! {

/// Relates an executable index result to the specification one.
pub open spec fn idx_res_ok(r: Option<usize>, m: Option<int>) -> bool {
    match (r, m) {
        (Some(a), Some(b)) => a == b,
        (None, None) => true,
        _ => false,
    }
}

/// Consumes one JSON value starting at `i` (no leading whitespace) and
/// yields the index just after it. Strings are checked in full; the inside
/// of brackets is consumed up to the matching closer without further
/// grammar checks; an unquoted token runs to the next delimiter.
pub open spec fn sp_skip_value(s: Seq<char>, i: int) -> Option<int> {
    if i < 0 || i >= s.len() {
        None
    } else {
        let c = s[i];
        if c == '"' {
            match sp_string_body(s, i + 1, Seq::empty()) {
                Some(p) => Some(p.1),
                None => None,
            }
        } else if c == '{' || c == '[' {
            sp_skip_composite(s, i + 1, 1)
        } else if prim_end(s, i) == i {
            None
        } else {
            Some(prim_end(s, i))
        }
    }
}

/// Consumes the remainder of a bracketed value in which `depth` brackets
/// are open, and yields the index just after the closer that balances the
/// first of them.
pub open spec fn sp_skip_composite(s: Seq<char>, i: int, depth: int) -> Option<int>
    decreases s.len() - i,
{
    if i < 0 || i >= s.len() {
        None
    } else {
        let c = s[i];
        if c == '"' {
            match sp_string_body(s, i + 1, Seq::empty()) {
                Some(p) => {
                    if p.1 <= i || p.1 > s.len() {
                        None
                    } else {
                        sp_skip_composite(s, p.1, depth)
                    }
                },
                None => None,
            }
        } else if c == '{' || c == '[' {
            sp_skip_composite(s, i + 1, depth + 1)
        } else if c == '}' || c == ']' {
            if depth <= 1 {
                Some(i + 1)
            } else {
                sp_skip_composite(s, i + 1, depth - 1)
            }
        } else {
            sp_skip_composite(s, i + 1, depth)
        }
    }
}

fn skip_composite(s: &Vec<char>, i: usize, depth: usize) -> (r: Option<usize>)
    requires
        1 <= depth <= i,
        i <= s.len(),
    ensures
        idx_res_ok(r, sp_skip_composite(s@, i as int, depth as int)),
        r matches Some(j) ==> i < j <= s.len(),
    decreases s.len() - i,
{
    if i >= s.len() {
        return None;
    }
    let c = s[i];
    if c == '"' {
        match string_body(s, i + 1, Vec::new()) {
            Some(p) => {
                let j = p.1;
                if j <= i || j > s.len() {
                    None
                } else {
                    skip_composite(s, j, depth)
                }
            },
            None => None,
        }
    } else if c == '{' || c == '[' {
        skip_composite(s, i + 1, depth + 1)
    } else if c == '}' || c == ']' {
        if depth <= 1 {
            Some(i + 1)
        } else {
            skip_composite(s, i + 1, depth - 1)
        }
    } else {
        skip_composite(s, i + 1, depth)
    }
}

fn skip_value(s: &Vec<char>, i: usize) -> (r: Option<usize>)
    requires
        i <= s.len(),
    ensures
        idx_res_ok(r, sp_skip_value(s@, i as int)),
        r matches Some(j) ==> i < j <= s.len(),
    decreases s.len() - i,
{
    if i >= s.len() {
        return None;
    }
    let c = s[i];
    if c == '"' {
        match string_body(s, i + 1, Vec::new()) {
            Some(p) => {
                proof {
                    lemma_string_body_advances(s@, i + 1);
                }
                Some(p.1)
            },
            None => None,
        }
    } else if c == '{' || c == '[' {
        skip_composite(s, i + 1, 1)
    } else {
        let e = skip_prim(s, i);
        if e == i {
            None
        } else {
            Some(e)
        }
    }
}

/// Holds when a parse outcome lies strictly beyond `i` and within the text.
pub open spec fn advances(m: Option<(Seq<char>, int)>, i: int, len: int) -> bool {
    match m {
        Some(p) => i < p.1 <= len,
        None => true,
    }
}

/// A successful string parse always moves past at least the closing quote
/// and stays within the text.
pub proof fn lemma_string_body_advances(s: Seq<char>, i: int)
    ensures
        forall|acc: Seq<char>| advances(#[trigger] sp_string_body(s, i, acc), i, s.len() as int),
    decreases s.len() - i, 1nat,
{
    if 0 <= i < s.len() {
        lemma_string_body_advances(s, i + 1);
        if i + 2 <= s.len() {
            lemma_string_body_advances(s, i + 2);
        }
        if i + 6 <= s.len() {
            lemma_string_body_advances(s, i + 6);
        }
        lemma_string_pair_advances(s, i);
    }
    assert forall|acc: Seq<char>|
        advances(#[trigger] sp_string_body(s, i, acc), i, s.len() as int) by {
        if 0 <= i < s.len() {
            let c = s[i];
            if c == '"' {
            } else if c == '\\' && i + 2 <= s.len() {
                let e = s[i + 1];
                if e == '"' {
                    assert(advances(sp_string_body(s, i + 2, acc.push('"')), i + 2, s.len() as int));
                } else if e == '\\' {
                    assert(advances(sp_string_body(s, i + 2, acc.push('\\')), i + 2, s.len() as int));
                } else if e == '/' {
                    assert(advances(sp_string_body(s, i + 2, acc.push('/')), i + 2, s.len() as int));
                } else if e == 'b' {
                    assert(advances(sp_string_body(s, i + 2, acc.push('\u{8}')), i + 2, s.len() as int));
                } else if e == 'f' {
                    assert(advances(sp_string_body(s, i + 2, acc.push('\u{c}')), i + 2, s.len() as int));
                } else if e == 'n' {
                    assert(advances(sp_string_body(s, i + 2, acc.push('\n')), i + 2, s.len() as int));
                } else if e == 'r' {
                    assert(advances(sp_string_body(s, i + 2, acc.push('\r')), i + 2, s.len() as int));
                } else if e == 't' {
                    assert(advances(sp_string_body(s, i + 2, acc.push('\t')), i + 2, s.len() as int));
                } else if e == 'u' && i + 6 <= s.len() {
                    match (hex_val(s[i + 2]), hex_val(s[i + 3]), hex_val(s[i + 4]), hex_val(
                        s[i + 5],
                    )) {
                        (Some(h0), Some(h1), Some(h2), Some(h3)) => {
                            let cp = h0 * 4096 + h1 * 256 + h2 * 16 + h3;
                            if cp < 0xD800 || cp >= 0xE000 {
                                assert(advances(
                                    sp_string_body(s, i + 6, acc.push((cp as u32) as char)),
                                    i + 6,
                                    s.len() as int,
                                ));
                            } else if cp < 0xDC00 {
                                assert(advances(
                                    sp_string_pair(s, i, acc, cp as u32),
                                    i,
                                    s.len() as int,
                                ));
                            }
                        },
                        _ => {},
                    }
                }
            } else if (c as u32) >= 32 {
                assert(advances(sp_string_body(s, i + 1, acc.push(c)), i + 1, s.len() as int));
            }
        }
    }
}

pub proof fn lemma_string_pair_advances(s: Seq<char>, i: int)
    ensures
        forall|acc: Seq<char>, hi: u32|
            advances(#[trigger] sp_string_pair(s, i, acc, hi), i, s.len() as int),
    decreases s.len() - i, 0nat,
{
    if 0 <= i && i + 12 <= s.len() {
        lemma_string_body_advances(s, i + 12);
    }
    assert forall|acc: Seq<char>, hi: u32|
        advances(#[trigger] sp_string_pair(s, i, acc, hi), i, s.len() as int) by {
        if 0 <= i && i + 12 <= s.len() {
            match (hex_val(s[i + 8]), hex_val(s[i + 9]), hex_val(s[i + 10]), hex_val(s[i + 11])) {
                (Some(h0), Some(h1), Some(h2), Some(h3)) => {
                    let lo = h0 * 4096 + h1 * 256 + h2 * 16 + h3;
                    if 0xDC00 <= lo < 0xE000 {
                        let scalar = 0x10000 + (hi - 0xD800) * 1024 + (lo - 0xDC00);
                        assert(advances(
                            sp_string_body(s, i + 12, acc.push((scalar as u32) as char)),
                            i + 12,
                            s.len() as int,
                        ));
                    }
                },
                _ => {},
            }
        }
    }
}

} // verus!

verus! {

/// Parses the object form `{ ... "content": <string> ... }` of a reply
/// message, starting at `i` on the opening brace. Unknown members are
/// skipped; a missing or repeated `content` member is an error. Yields the
/// content text and the index just after the closing brace.
pub open spec fn sp_message_obj(s: Seq<char>, i: int) -> Option<(Seq<char>, int)> {
    if i < 0 || i >= s.len() || s[i] != '{' {
        None
    } else {
        sp_message_members(s, ws_end(s, i + 1), None, false)
    }
}

/// The member loop of `sp_message_obj`: `i` stands on a member key or on
/// the closing brace, `found` holds the content seen so far, and
/// `after_comma` says whether a separator was just consumed (a closing
/// brace directly after one is an error).
pub open spec fn sp_message_members(
    s: Seq<char>,
    i: int,
    found: Option<Seq<char>>,
    after_comma: bool,
) -> Option<(Seq<char>, int)>
    decreases s.len() - i,
{
    if i < 0 || i >= s.len() {
        None
    } else if s[i] == '}' {
        if after_comma {
            None
        } else {
            match found {
                Some(v) => Some((v, i + 1)),
                None => None,
            }
        }
    } else if s[i] == '"' {
        match sp_string_body(s, i + 1, Seq::empty()) {
            Some(kp) => {
                let k = ws_end(s, kp.1);
                if k >= s.len() || s[k] != ':' {
                    None
                } else {
                    let m = ws_end(s, k + 1);
                    if kp.0 == "content"@ {
                        if found is Some {
                            None
                        } else if m >= s.len() || s[m] != '"' {
                            None
                        } else {
                            match sp_string_body(s, m + 1, Seq::empty()) {
                                Some(vp) => {
                                    let p = ws_end(s, vp.1);
                                    if p < 0 || p >= s.len() {
                                        None
                                    } else if s[p] == ',' {
                                        let q = ws_end(s, p + 1);
                                        if q <= i || q > s.len() {
                                            None
                                        } else {
                                            sp_message_members(s, q, Some(vp.0), true)
                                        }
                                    } else if s[p] == '}' {
                                        Some((vp.0, p + 1))
                                    } else {
                                        None
                                    }
                                },
                                None => None,
                            }
                        }
                    } else {
                        match sp_skip_value(s, m) {
                            Some(e) => {
                                let p = ws_end(s, e);
                                if p < 0 || p >= s.len() {
                                    None
                                } else if s[p] == ',' {
                                    let q = ws_end(s, p + 1);
                                    if q <= i || q > s.len() {
                                        None
                                    } else {
                                        sp_message_members(s, q, found, true)
                                    }
                                } else if s[p] == '}' {
                                    match found {
                                        Some(v) => Some((v, p + 1)),
                                        None => None,
                                    }
                                } else {
                                    None
                                }
                            },
                            None => None,
                        }
                    }
                }
            },
            None => None,
        }
    } else {
        None
    }
}

/// Parses the object form `{ ... "message": <message object> ... }` of one
/// choice, as `sp_message_obj` does for the message.
pub open spec fn sp_choice_obj(s: Seq<char>, i: int) -> Option<(Seq<char>, int)> {
    if i < 0 || i >= s.len() || s[i] != '{' {
        None
    } else {
        sp_choice_members(s, ws_end(s, i + 1), None, false)
    }
}

/// The member loop of `sp_choice_obj`.
pub open spec fn sp_choice_members(
    s: Seq<char>,
    i: int,
    found: Option<Seq<char>>,
    after_comma: bool,
) -> Option<(Seq<char>, int)>
    decreases s.len() - i,
{
    if i < 0 || i >= s.len() {
        None
    } else if s[i] == '}' {
        if after_comma {
            None
        } else {
            match found {
                Some(v) => Some((v, i + 1)),
                None => None,
            }
        }
    } else if s[i] == '"' {
        match sp_string_body(s, i + 1, Seq::empty()) {
            Some(kp) => {
                let k = ws_end(s, kp.1);
                if k >= s.len() || s[k] != ':' {
                    None
                } else {
                    let m = ws_end(s, k + 1);
                    if kp.0 == "message"@ {
                        if found is Some {
                            None
                        } else {
                            match sp_message_obj(s, m) {
                                Some(vp) => {
                                    let p = ws_end(s, vp.1);
                                    if p < 0 || p >= s.len() {
                                        None
                                    } else if s[p] == ',' {
                                        let q = ws_end(s, p + 1);
                                        if q <= i || q > s.len() {
                                            None
                                        } else {
                                            sp_choice_members(s, q, Some(vp.0), true)
                                        }
                                    } else if s[p] == '}' {
                                        Some((vp.0, p + 1))
                                    } else {
                                        None
                                    }
                                },
                                None => None,
                            }
                        }
                    } else {
                        match sp_skip_value(s, m) {
                            Some(e) => {
                                let p = ws_end(s, e);
                                if p < 0 || p >= s.len() {
                                    None
                                } else if s[p] == ',' {
                                    let q = ws_end(s, p + 1);
                                    if q <= i || q > s.len() {
                                        None
                                    } else {
                                        sp_choice_members(s, q, found, true)
                                    }
                                } else if s[p] == '}' {
                                    match found {
                                        Some(v) => Some((v, p + 1)),
                                        None => None,
                                    }
                                } else {
                                    None
                                }
                            },
                            None => None,
                        }
                    }
                }
            },
            None => None,
        }
    } else {
        None
    }
}

/// Parses the array of choices, starting at `i` on the opening bracket.
/// Yields the content of every choice, in order.
pub open spec fn sp_choices(s: Seq<char>, i: int) -> Option<(Seq<Seq<char>>, int)> {
    if i < 0 || i >= s.len() || s[i] != '[' {
        None
    } else {
        let w = ws_end(s, i + 1);
        if 0 <= w < s.len() && s[w] == ']' {
            Some((Seq::empty(), w + 1))
        } else {
            sp_choice_items(s, w, Seq::empty())
        }
    }
}

/// The item loop of `sp_choices`: one choice object, then either a comma
/// and another or the closing bracket.
pub open spec fn sp_choice_items(s: Seq<char>, i: int, acc: Seq<Seq<char>>) -> Option<
    (Seq<Seq<char>>, int),
>
    decreases s.len() - i,
{
    if i < 0 || i >= s.len() {
        None
    } else {
        match sp_choice_obj(s, i) {
            Some(cp) => {
                let p = ws_end(s, cp.1);
                if p < 0 || p >= s.len() {
                    None
                } else if s[p] == ',' {
                    let q = ws_end(s, p + 1);
                    if q <= i || q > s.len() {
                        None
                    } else {
                        sp_choice_items(s, q, acc.push(cp.0))
                    }
                } else if s[p] == ']' {
                    Some((acc.push(cp.0), p + 1))
                } else {
                    None
                }
            },
            None => None,
        }
    }
}

/// The member loop of the reply envelope `{ ... "choices": [...] ... }`.
pub open spec fn sp_top_members(
    s: Seq<char>,
    i: int,
    found: Option<Seq<Seq<char>>>,
    after_comma: bool,
) -> Option<(Seq<Seq<char>>, int)>
    decreases s.len() - i,
{
    if i < 0 || i >= s.len() {
        None
    } else if s[i] == '}' {
        if after_comma {
            None
        } else {
            match found {
                Some(v) => Some((v, i + 1)),
                None => None,
            }
        }
    } else if s[i] == '"' {
        match sp_string_body(s, i + 1, Seq::empty()) {
            Some(kp) => {
                let k = ws_end(s, kp.1);
                if k >= s.len() || s[k] != ':' {
                    None
                } else {
                    let m = ws_end(s, k + 1);
                    if kp.0 == "choices"@ {
                        if found is Some {
                            None
                        } else {
                            match sp_choices(s, m) {
                                Some(vp) => {
                                    let p = ws_end(s, vp.1);
                                    if p < 0 || p >= s.len() {
                                        None
                                    } else if s[p] == ',' {
                                        let q = ws_end(s, p + 1);
                                        if q <= i || q > s.len() {
                                            None
                                        } else {
                                            sp_top_members(s, q, Some(vp.0), true)
                                        }
                                    } else if s[p] == '}' {
                                        Some((vp.0, p + 1))
                                    } else {
                                        None
                                    }
                                },
                                None => None,
                            }
                        }
                    } else {
                        match sp_skip_value(s, m) {
                            Some(e) => {
                                let p = ws_end(s, e);
                                if p < 0 || p >= s.len() {
                                    None
                                } else if s[p] == ',' {
                                    let q = ws_end(s, p + 1);
                                    if q <= i || q > s.len() {
                                        None
                                    } else {
                                        sp_top_members(s, q, found, true)
                                    }
                                } else if s[p] == '}' {
                                    match found {
                                        Some(v) => Some((v, p + 1)),
                                        None => None,
                                    }
                                } else {
                                    None
                                }
                            },
                            None => None,
                        }
                    }
                }
            },
            None => None,
        }
    } else {
        None
    }
}

/// Parses a whole reply body: one envelope object and nothing but
/// whitespace after it. Yields the content of every choice.
pub open spec fn sp_top(s: Seq<char>) -> Option<Seq<Seq<char>>> {
    let i = ws_end(s, 0);
    if i < 0 || i >= s.len() || s[i] != '{' {
        None
    } else {
        match sp_top_members(s, ws_end(s, i + 1), None, false) {
            Some(cp) => {
                if ws_end(s, cp.1) == s.len() {
                    Some(cp.0)
                } else {
                    None
                }
            },
            None => None,
        }
    }
}

} // verus!

verus! {

/// The sequence of views of a list of character vectors.
pub open spec fn list_view(v: Vec<Vec<char>>) -> Seq<Seq<char>> {
    Seq::new(v@.len(), |k: int| v@[k]@)
}

/// Relates an executable list-parse result to the specification one.
pub open spec fn list_res_ok(r: Option<(Vec<Vec<char>>, usize)>, m: Option<(Seq<Seq<char>>, int)>) -> bool {
    match (r, m) {
        (Some(p), Some(q)) => list_view(p.0) == q.0 && p.1 == q.1,
        (None, None) => true,
        _ => false,
    }
}

/// The view of an optional text, option-wise.
pub open spec fn opt_view(o: Option<Vec<char>>) -> Option<Seq<char>> {
    match o {
        Some(v) => Some(v@),
        None => None,
    }
}

/// The view of an optional list of texts, option-wise.
pub open spec fn opt_list_view(o: Option<Vec<Vec<char>>>) -> Option<Seq<Seq<char>>> {
    match o {
        Some(v) => Some(list_view(v)),
        None => None,
    }
}

/// Whether a character vector holds exactly the text of `lit`.
fn eq_lit(v: &Vec<char>, lit: &str) -> (r: bool)
    ensures
        r == (v@ == lit@),
{
    let n = lit.unicode_len();
    if v.len() != n {
        proof {
            if v@ == lit@ {
                assert(v@.len() == lit@.len());
            }
        }
        return false;
    }
    let mut k: usize = 0;
    while k < n
        invariant
            k <= n,
            n == lit@.len(),
            v@.len() == n,
            forall|t: int| 0 <= t < k ==> v@[t] == lit@[t],
        decreases n - k,
    {
        if v[k] != lit.get_char(k) {
            proof {
                if v@ == lit@ {
                    assert(v@[k as int] == lit@[k as int]);
                }
            }
            return false;
        }
        k += 1;
    }
    proof {
        assert(v@ =~= lit@);
    }
    true
}

/// Parses a message object as `sp_message_obj` describes.
fn message_obj(s: &Vec<char>, i: usize) -> (r: Option<(Vec<char>, usize)>)
    requires
        i <= s.len(),
    ensures
        str_res_ok(r, sp_message_obj(s@, i as int)),
        r matches Some(p) ==> p.1 <= s.len(),
    decreases s.len() - i, 1nat,
{
    if i >= s.len() {
        return None;
    }
    if s[i] != '{' {
        return None;
    }
    let w = skip_ws(s, i + 1);
    message_members(s, w, None, false)
}

/// Parses the member loop of a message object as `sp_message_members`
/// describes.
fn message_members(s: &Vec<char>, i: usize, found: Option<Vec<char>>, after_comma: bool) -> (r:
    Option<(Vec<char>, usize)>)
    requires
        i <= s.len(),
    ensures
        str_res_ok(r, sp_message_members(s@, i as int, opt_view(found), after_comma)),
        r matches Some(p) ==> p.1 <= s.len(),
    decreases s.len() - i, 0nat,
{
    if i >= s.len() {
        return None;
    }
    let c = s[i];
    if c == '}' {
        if after_comma {
            None
        } else {
            match found {
                Some(v) => Some((v, i + 1)),
                None => None,
            }
        }
    } else if c == '"' {
        match string_body(s, i + 1, Vec::new()) {
            Some(kp) => {
                proof {
                    lemma_string_body_advances(s@, i + 1);
                }
                let key = kp.0;
                let j = kp.1;
                let k = skip_ws(s, j);
                if k >= s.len() {
                    return None;
                }
                if s[k] != ':' {
                    return None;
                }
                let m = skip_ws(s, k + 1);
                if eq_lit(&key, "content") {
                    if found.is_some() {
                        return None;
                    }
                    if m >= s.len() {
                        return None;
                    }
                    if s[m] != '"' {
                        return None;
                    }
                    match string_body(s, m + 1, Vec::new()) {
                        Some(vp) => {
                            proof {
                                lemma_string_body_advances(s@, m + 1);
                            }
                            let p = skip_ws(s, vp.1);
                            if p >= s.len() {
                                return None;
                            }
                            if s[p] == ',' {
                                let q = skip_ws(s, p + 1);
                                if q <= i {
                                    None
                                } else {
                                    message_members(s, q, Some(vp.0), true)
                                }
                            } else if s[p] == '}' {
                                Some((vp.0, p + 1))
                            } else {
                                None
                            }
                        },
                        None => None,
                    }
                } else {
                    match skip_value(s, m) {
                        Some(e) => {
                            let p = skip_ws(s, e);
                            if p >= s.len() {
                                return None;
                            }
                            if s[p] == ',' {
                                let q = skip_ws(s, p + 1);
                                if q <= i {
                                    None
                                } else {
                                    message_members(s, q, found, true)
                                }
                            } else if s[p] == '}' {
                                match found {
                                    Some(v) => Some((v, p + 1)),
                                    None => None,
                                }
                            } else {
                                None
                            }
                        },
                        None => None,
                    }
                }
            },
            None => None,
        }
    } else {
        None
    }
}

/// Parses a choice object as `sp_choice_obj` describes.
fn choice_obj(s: &Vec<char>, i: usize) -> (r: Option<(Vec<char>, usize)>)
    requires
        i <= s.len(),
    ensures
        str_res_ok(r, sp_choice_obj(s@, i as int)),
        r matches Some(p) ==> p.1 <= s.len(),
    decreases s.len() - i, 1nat,
{
    if i >= s.len() {
        return None;
    }
    if s[i] != '{' {
        return None;
    }
    let w = skip_ws(s, i + 1);
    choice_members(s, w, None, false)
}

/// Parses the member loop of a choice object as `sp_choice_members`
/// describes.
fn choice_members(s: &Vec<char>, i: usize, found: Option<Vec<char>>, after_comma: bool) -> (r:
    Option<(Vec<char>, usize)>)
    requires
        i <= s.len(),
    ensures
        str_res_ok(r, sp_choice_members(s@, i as int, opt_view(found), after_comma)),
        r matches Some(p) ==> p.1 <= s.len(),
    decreases s.len() - i, 0nat,
{
    if i >= s.len() {
        return None;
    }
    let c = s[i];
    if c == '}' {
        if after_comma {
            None
        } else {
            match found {
                Some(v) => Some((v, i + 1)),
                None => None,
            }
        }
    } else if c == '"' {
        match string_body(s, i + 1, Vec::new()) {
            Some(kp) => {
                proof {
                    lemma_string_body_advances(s@, i + 1);
                }
                let key = kp.0;
                let j = kp.1;
                let k = skip_ws(s, j);
                if k >= s.len() {
                    return None;
                }
                if s[k] != ':' {
                    return None;
                }
                let m = skip_ws(s, k + 1);
                if eq_lit(&key, "message") {
                    if found.is_some() {
                        return None;
                    }
                    match message_obj(s, m) {
                        Some(vp) => {
                            let p = skip_ws(s, vp.1);
                            if p >= s.len() {
                                return None;
                            }
                            if s[p] == ',' {
                                let q = skip_ws(s, p + 1);
                                if q <= i {
                                    None
                                } else {
                                    choice_members(s, q, Some(vp.0), true)
                                }
                            } else if s[p] == '}' {
                                Some((vp.0, p + 1))
                            } else {
                                None
                            }
                        },
                        None => None,
                    }
                } else {
                    match skip_value(s, m) {
                        Some(e) => {
                            let p = skip_ws(s, e);
                            if p >= s.len() {
                                return None;
                            }
                            if s[p] == ',' {
                                let q = skip_ws(s, p + 1);
                                if q <= i {
                                    None
                                } else {
                                    choice_members(s, q, found, true)
                                }
                            } else if s[p] == '}' {
                                match found {
                                    Some(v) => Some((v, p + 1)),
                                    None => None,
                                }
                            } else {
                                None
                            }
                        },
                        None => None,
                    }
                }
            },
            None => None,
        }
    } else {
        None
    }
}

/// Parses the choices array as `sp_choices` describes.
fn choices_array(s: &Vec<char>, i: usize) -> (r: Option<(Vec<Vec<char>>, usize)>)
    requires
        i <= s.len(),
    ensures
        list_res_ok(r, sp_choices(s@, i as int)),
        r matches Some(p) ==> p.1 <= s.len(),
    decreases s.len() - i, 1nat,
{
    if i >= s.len() {
        return None;
    }
    if s[i] != '[' {
        return None;
    }
    let w = skip_ws(s, i + 1);
    if w < s.len() && s[w] == ']' {
        let out: Vec<Vec<char>> = Vec::new();
        proof {
            assert(list_view(out) =~= Seq::<Seq<char>>::empty());
        }
        Some((out, w + 1))
    } else {
        let acc: Vec<Vec<char>> = Vec::new();
        proof {
            assert(list_view(acc) =~= Seq::<Seq<char>>::empty());
        }
        choice_items(s, w, acc)
    }
}

/// Parses the item loop of the choices array as `sp_choice_items`
/// describes.
fn choice_items(s: &Vec<char>, i: usize, acc: Vec<Vec<char>>) -> (r: Option<(Vec<Vec<char>>, usize)>)
    requires
        i <= s.len(),
    ensures
        list_res_ok(r, sp_choice_items(s@, i as int, list_view(acc))),
        r matches Some(p) ==> p.1 <= s.len(),
    decreases s.len() - i, 0nat,
{
    if i >= s.len() {
        return None;
    }
    match choice_obj(s, i) {
        Some(cp) => {
            let p = skip_ws(s, cp.1);
            if p >= s.len() {
                return None;
            }
            if s[p] == ',' {
                let q = skip_ws(s, p + 1);
                if q <= i {
                    None
                } else {
                    let mut a = acc;
                    let ghost old_view = list_view(a);
                    a.push(cp.0);
                    proof {
                        assert(list_view(a) =~= old_view.push(sp_choice_obj(s@, i as int)->Some_0.0));
                    }
                    choice_items(s, q, a)
                }
            } else if s[p] == ']' {
                let mut a = acc;
                let ghost old_view = list_view(a);
                a.push(cp.0);
                proof {
                    assert(list_view(a) =~= old_view.push(sp_choice_obj(s@, i as int)->Some_0.0));
                }
                Some((a, p + 1))
            } else {
                None
            }
        },
        None => None,
    }
}

/// Parses the member loop of the reply envelope as `sp_top_members`
/// describes.
fn top_members(s: &Vec<char>, i: usize, found: Option<Vec<Vec<char>>>, after_comma: bool) -> (r:
    Option<(Vec<Vec<char>>, usize)>)
    requires
        i <= s.len(),
    ensures
        list_res_ok(r, sp_top_members(s@, i as int, opt_list_view(found), after_comma)),
        r matches Some(p) ==> p.1 <= s.len(),
    decreases s.len() - i, 0nat,
{
    if i >= s.len() {
        return None;
    }
    let c = s[i];
    if c == '}' {
        if after_comma {
            None
        } else {
            match found {
                Some(v) => Some((v, i + 1)),
                None => None,
            }
        }
    } else if c == '"' {
        match string_body(s, i + 1, Vec::new()) {
            Some(kp) => {
                proof {
                    lemma_string_body_advances(s@, i + 1);
                }
                let key = kp.0;
                let j = kp.1;
                let k = skip_ws(s, j);
                if k >= s.len() {
                    return None;
                }
                if s[k] != ':' {
                    return None;
                }
                let m = skip_ws(s, k + 1);
                if eq_lit(&key, "choices") {
                    if found.is_some() {
                        return None;
                    }
                    match choices_array(s, m) {
                        Some(vp) => {
                            let p = skip_ws(s, vp.1);
                            if p >= s.len() {
                                return None;
                            }
                            if s[p] == ',' {
                                let q = skip_ws(s, p + 1);
                                if q <= i {
                                    None
                                } else {
                                    top_members(s, q, Some(vp.0), true)
                                }
                            } else if s[p] == '}' {
                                Some((vp.0, p + 1))
                            } else {
                                None
                            }
                        },
                        None => None,
                    }
                } else {
                    match skip_value(s, m) {
                        Some(e) => {
                            let p = skip_ws(s, e);
                            if p >= s.len() {
                                return None;
                            }
                            if s[p] == ',' {
                                let q = skip_ws(s, p + 1);
                                if q <= i {
                                    None
                                } else {
                                    top_members(s, q, found, true)
                                }
                            } else if s[p] == '}' {
                                match found {
                                    Some(v) => Some((v, p + 1)),
                                    None => None,
                                }
                            } else {
                                None
                            }
                        },
                        None => None,
                    }
                }
            },
            None => None,
        }
    } else {
        None
    }
}

/// Parses a whole reply body as `sp_top` describes.
pub fn parse_reply(s: &Vec<char>) -> (r: Option<Vec<Vec<char>>>)
    ensures
        opt_list_view(r) == sp_top(s@),
{
    let i = skip_ws(s, 0);
    if i >= s.len() {
        return None;
    }
    if s[i] != '{' {
        return None;
    }
    let w = skip_ws(s, i + 1);
    match top_members(s, w, None, false) {
        Some(cp) => {
            let e = skip_ws(s, cp.1);
            if e == s.len() {
                Some(cp.0)
            } else {
                None
            }
        },
        None => None,
    }
}

} // verus!

verus! {

/// Parses one JSON integer token at `i`: an optional minus sign and a
/// digit run without leading zeros, ended by a delimiter or the end of the
/// text, and lying within the signed 64-bit range. A fraction, an exponent
/// or an overflow is an error. Yields the value and the index after it.
pub open spec fn sp_i64(s: Seq<char>, i: int) -> Option<(int, int)> {
    if i < 0 || i >= s.len() {
        None
    } else {
        let neg = s[i] == '-';
        let d0 = if neg {
            i + 1
        } else {
            i
        };
        if d0 >= s.len() || !is_digit(s[d0]) {
            None
        } else {
            let de = digits_end(s, d0);
            if s[d0] == '0' && de > d0 + 1 {
                None
            } else if de < s.len() && !is_delim(s[de]) {
                None
            } else {
                let v = digits_val(s.subrange(d0, de));
                let sv = if neg {
                    -(v as int)
                } else {
                    v as int
                };
                if sv < -0x8000000000000000 || sv > 0x7FFFFFFFFFFFFFFF {
                    None
                } else {
                    Some((sv, de))
                }
            }
        }
    }
}

/// The item loop of an integer array: one integer, then either a comma and
/// another or the closing bracket.
pub open spec fn sp_i64_items(s: Seq<char>, i: int, acc: Seq<i64>) -> Option<(Seq<i64>, int)>
    decreases s.len() - i,
{
    if i < 0 || i >= s.len() {
        None
    } else {
        match sp_i64(s, i) {
            Some(vp) => {
                let p = ws_end(s, vp.1);
                if p < 0 || p >= s.len() {
                    None
                } else if s[p] == ',' {
                    let q = ws_end(s, p + 1);
                    if q <= i || q > s.len() {
                        None
                    } else {
                        sp_i64_items(s, q, acc.push(vp.0 as i64))
                    }
                } else if s[p] == ']' {
                    Some((acc.push(vp.0 as i64), p + 1))
                } else {
                    None
                }
            },
            None => None,
        }
    }
}

/// Parses a whole text as a JSON array of 64-bit integers: one array and
/// nothing but whitespace around it.
pub open spec fn sp_i64_list(s: Seq<char>) -> Option<Seq<i64>> {
    let i = ws_end(s, 0);
    if i < 0 || i >= s.len() || s[i] != '[' {
        None
    } else {
        let w = ws_end(s, i + 1);
        if 0 <= w < s.len() && s[w] == ']' {
            if ws_end(s, w + 1) == s.len() {
                Some(Seq::empty())
            } else {
                None
            }
        } else {
            match sp_i64_items(s, w, Seq::empty()) {
                Some(vp) => {
                    if ws_end(s, vp.1) == s.len() {
                        Some(vp.0)
                    } else {
                        None
                    }
                },
                None => None,
            }
        }
    }
}

/// The item loop of a string array.
pub open spec fn sp_str_items(s: Seq<char>, i: int, acc: Seq<Seq<char>>) -> Option<
    (Seq<Seq<char>>, int),
>
    decreases s.len() - i,
{
    if i < 0 || i >= s.len() || s[i] != '"' {
        None
    } else {
        match sp_string_body(s, i + 1, Seq::empty()) {
            Some(vp) => {
                let p = ws_end(s, vp.1);
                if p < 0 || p >= s.len() {
                    None
                } else if s[p] == ',' {
                    let q = ws_end(s, p + 1);
                    if q <= i || q > s.len() {
                        None
                    } else {
                        sp_str_items(s, q, acc.push(vp.0))
                    }
                } else if s[p] == ']' {
                    Some((acc.push(vp.0), p + 1))
                } else {
                    None
                }
            },
            None => None,
        }
    }
}

/// Parses a whole text as a JSON array of strings.
pub open spec fn sp_str_list(s: Seq<char>) -> Option<Seq<Seq<char>>> {
    let i = ws_end(s, 0);
    if i < 0 || i >= s.len() || s[i] != '[' {
        None
    } else {
        let w = ws_end(s, i + 1);
        if 0 <= w < s.len() && s[w] == ']' {
            if ws_end(s, w + 1) == s.len() {
                Some(Seq::empty())
            } else {
                None
            }
        } else {
            match sp_str_items(s, w, Seq::empty()) {
                Some(vp) => {
                    if ws_end(s, vp.1) == s.len() {
                        Some(vp.0)
                    } else {
                        None
                    }
                },
                None => None,
            }
        }
    }
}

/// Ten to the given power.
pub open spec fn pow10(n: nat) -> nat
    decreases n,
{
    if n == 0 {
        1
    } else {
        10 * pow10((n - 1) as nat)
    }
}

/// A digit run is bounded by ten to its length, and reaches a tenth of
/// that when its first digit is not zero.
pub proof fn lemma_digits_val_bounds(s: Seq<char>)
    requires
        forall|k: int| 0 <= k < s.len() ==> is_digit(#[trigger] s[k]),
    ensures
        digits_val(s) < pow10(s.len()),
        s.len() > 0 && s[0] != '0' ==> digits_val(s) >= pow10((s.len() - 1) as nat),
    decreases s.len(),
{
    if s.len() > 0 {
        lemma_digits_val_bounds(s.drop_last());
        assert(s.drop_last().len() == s.len() - 1);
        if s.len() > 1 {
            assert(s.drop_last()[0] == s[0]);
        }
        if s.len() == 1 && s[0] != '0' {
            let c = s[0];
            assert('0' as u32 == 48);
            if c as u32 == 48 {
                vstd::utf8::char_u32_cast(c, 48);
                vstd::utf8::char_u32_cast('0', 48);
                assert(c == '0');
            }
            assert(digit_val(c) >= 1);
        }
    }
}

/// Relates an executable integer-parse result to the specification one.
pub open spec fn i64_res_ok(r: Option<(i64, usize)>, m: Option<(int, int)>) -> bool {
    match (r, m) {
        (Some(p), Some(q)) => p.0 == q.0 && p.1 == q.1,
        (None, None) => true,
        _ => false,
    }
}

/// Parses one integer token as `sp_i64` describes.
fn parse_i64(s: &Vec<char>, i: usize) -> (r: Option<(i64, usize)>)
    requires
        i <= s.len(),
    ensures
        i64_res_ok(r, sp_i64(s@, i as int)),
        r matches Some(p) ==> i < p.1 <= s.len(),
{
    if i >= s.len() {
        return None;
    }
    let neg = s[i] == '-';
    let d0 = if neg {
        i + 1
    } else {
        i
    };
    if d0 >= s.len() {
        return None;
    }
    if !is_digit_exec(s[d0]) {
        return None;
    }
    let de = skip_digits(s, d0);
    if s[d0] == '0' && de > d0 + 1 {
        return None;
    }
    if de < s.len() && !is_delim_exec(s[de]) {
        return None;
    }
    let ghost run = s@.subrange(d0 as int, de as int);
    proof {
        lemma_digits_end_digits(s@, d0 as int);
        assert(forall|k: int| 0 <= k < run.len() ==> is_digit(#[trigger] run[k]));
        lemma_digits_val_bounds(run);
    }
    if de - d0 > 19 {
        // at least twenty digits without a leading zero: out of range
        proof {
            assert(run[0] == s@[d0 as int]);
            assert(pow10((run.len() - 1) as nat) >= pow10(19)) by {
                lemma_pow10_mono(19, (run.len() - 1) as nat);
            }
            lemma_pow10_19();
        }
        return None;
    }
    let mut acc: u128 = 0;
    let mut k = d0;
    proof {
        assert(s@.subrange(d0 as int, d0 as int) =~= Seq::<char>::empty());
    }
    while k < de
        invariant
            d0 <= k <= de <= s.len(),
            de - d0 <= 19,
            acc == digits_val(s@.subrange(d0 as int, k as int)),
            acc < pow10((k - d0) as nat),
            forall|t: int| d0 <= t < de ==> is_digit(#[trigger] s@[t]),
        decreases de - k,
    {
        proof {
            assert(pow10((k - d0) as nat) <= pow10(19)) by {
                lemma_pow10_mono((k - d0) as nat, 19);
            }
            lemma_pow10_19();
            assert(s@.subrange(d0 as int, k as int + 1).drop_last() =~= s@.subrange(
                d0 as int,
                k as int,
            ));
            assert(s@.subrange(d0 as int, k as int + 1).last() == s@[k as int]);
        }
        let d: u32 = s[k] as u32;
        acc = acc * 10 + (d - 48) as u128;
        k += 1;
        proof {
            assert(acc == digits_val(s@.subrange(d0 as int, k as int)));
        }
    }
    proof {
        assert(s@.subrange(d0 as int, de as int) =~= run);
        assert(pow10((de - d0) as nat) <= pow10(19)) by {
            lemma_pow10_mono((de - d0) as nat, 19);
        }
        lemma_pow10_19();
    }
    if neg {
        if acc > 9223372036854775808 {
            return None;
        }
        let v: i64 = (-(acc as i128)) as i64;
        Some((v, de))
    } else {
        if acc > 9223372036854775807 {
            return None;
        }
        Some((acc as i64, de))
    }
}

/// The nineteenth power of ten, concretely.
pub proof fn lemma_pow10_19()
    ensures
        pow10(19) == 10000000000000000000,
{
    reveal_with_fuel(pow10, 20);
}

/// Powers of ten grow with the exponent.
pub proof fn lemma_pow10_mono(a: nat, b: nat)
    requires
        a <= b,
    ensures
        pow10(a) <= pow10(b),
    decreases b,
{
    if a < b {
        lemma_pow10_mono(a, (b - 1) as nat);
        assert(pow10(b) == 10 * pow10((b - 1) as nat));
    }
}

/// Parses the item loop of an integer array as `sp_i64_items` describes.
fn i64_items(s: &Vec<char>, i: usize, acc: Vec<i64>) -> (r: Option<(Vec<i64>, usize)>)
    requires
        i <= s.len(),
    ensures
        (match (r, sp_i64_items(s@, i as int, acc@)) {
            (Some(p), Some(q)) => p.0@ == q.0 && p.1 == q.1 && p.1 <= s.len(),
            (None, None) => true,
            _ => false,
        }),
    decreases s.len() - i,
{
    if i >= s.len() {
        return None;
    }
    match parse_i64(s, i) {
        Some(vp) => {
            let p = skip_ws(s, vp.1);
            if p >= s.len() {
                return None;
            }
            if s[p] == ',' {
                let q = skip_ws(s, p + 1);
                if q <= i {
                    None
                } else {
                    let mut a = acc;
                    a.push(vp.0);
                    i64_items(s, q, a)
                }
            } else if s[p] == ']' {
                let mut a = acc;
                a.push(vp.0);
                Some((a, p + 1))
            } else {
                None
            }
        },
        None => None,
    }
}

/// Parses a whole text as an integer array, as `sp_i64_list` describes.
pub fn parse_i64_array(s: &Vec<char>) -> (r: Option<Vec<i64>>)
    ensures
        (match (r, sp_i64_list(s@)) {
            (Some(v), Some(q)) => v@ == q,
            (None, None) => true,
            _ => false,
        }),
{
    let i = skip_ws(s, 0);
    if i >= s.len() {
        return None;
    }
    if s[i] != '[' {
        return None;
    }
    let w = skip_ws(s, i + 1);
    if w < s.len() && s[w] == ']' {
        let e = skip_ws(s, w + 1);
        if e == s.len() {
            let out: Vec<i64> = Vec::new();
            proof {
                assert(out@ =~= Seq::<i64>::empty());
            }
            Some(out)
        } else {
            None
        }
    } else {
        let acc: Vec<i64> = Vec::new();
        proof {
            assert(acc@ =~= Seq::<i64>::empty());
        }
        match i64_items(s, w, acc) {
            Some(vp) => {
                let e = skip_ws(s, vp.1);
                if e == s.len() {
                    Some(vp.0)
                } else {
                    None
                }
            },
            None => None,
        }
    }
}

/// Parses the item loop of a string array as `sp_str_items` describes.
fn str_items(s: &Vec<char>, i: usize, acc: Vec<Vec<char>>) -> (r: Option<(Vec<Vec<char>>, usize)>)
    requires
        i <= s.len(),
    ensures
        (match (r, sp_str_items(s@, i as int, list_view(acc))) {
            (Some(p), Some(q)) => list_view(p.0) == q.0 && p.1 == q.1 && p.1 <= s.len(),
            (None, None) => true,
            _ => false,
        }),
    decreases s.len() - i,
{
    if i >= s.len() {
        return None;
    }
    if s[i] != '"' {
        return None;
    }
    match string_body(s, i + 1, Vec::new()) {
        Some(vp) => {
            proof {
                lemma_string_body_advances(s@, i + 1);
            }
            let p = skip_ws(s, vp.1);
            if p >= s.len() {
                return None;
            }
            if s[p] == ',' {
                let q = skip_ws(s, p + 1);
                if q <= i {
                    None
                } else {
                    let mut a = acc;
                    let ghost old_view = list_view(a);
                    a.push(vp.0);
                    proof {
                        assert(list_view(a) =~= old_view.push(
                            sp_string_body(s@, i + 1, Seq::empty())->Some_0.0,
                        ));
                    }
                    str_items(s, q, a)
                }
            } else if s[p] == ']' {
                let mut a = acc;
                let ghost old_view = list_view(a);
                a.push(vp.0);
                proof {
                    assert(list_view(a) =~= old_view.push(
                        sp_string_body(s@, i + 1, Seq::empty())->Some_0.0,
                    ));
                }
                Some((a, p + 1))
            } else {
                None
            }
        },
        None => None,
    }
}

/// Parses a whole text as a string array, as `sp_str_list` describes.
pub fn parse_str_array(s: &Vec<char>) -> (r: Option<Vec<Vec<char>>>)
    ensures
        (match (r, sp_str_list(s@)) {
            (Some(v), Some(q)) => list_view(v) == q,
            (None, None) => true,
            _ => false,
        }),
{
    let i = skip_ws(s, 0);
    if i >= s.len() {
        return None;
    }
    if s[i] != '[' {
        return None;
    }
    let w = skip_ws(s, i + 1);
    if w < s.len() && s[w] == ']' {
        let e = skip_ws(s, w + 1);
        if e == s.len() {
            let out: Vec<Vec<char>> = Vec::new();
            proof {
                assert(list_view(out) =~= Seq::<Seq<char>>::empty());
            }
            Some(out)
        } else {
            None
        }
    } else {
        let acc: Vec<Vec<char>> = Vec::new();
        proof {
            assert(list_view(acc) =~= Seq::<Seq<char>>::empty());
        }
        match str_items(s, w, acc) {
            Some(vp) => {
                let e = skip_ws(s, vp.1);
                if e == s.len() {
                    Some(vp.0)
                } else {
                    None
                }
            },
            None => None,
        }
    }
}

} // verus!

verus! {

/// The character for a hexadecimal digit value, lowercase.
pub open spec fn hex_digit(d: nat) -> char {
    if d < 10 {
        crate::dec::digit_char(d)
    } else {
        ((87 + d) as u8) as char
    }
}

/// The JSON encoding of one character inside a string literal: quotes and
/// backslashes are escaped, control characters use the short escapes or a
/// `\u00XX` escape, and everything else stands as itself.
pub open spec fn esc_char(c: char) -> Seq<char> {
    if c == '"' {
        seq!['\\', '"']
    } else if c == '\\' {
        seq!['\\', '\\']
    } else if c == '\u{8}' {
        seq!['\\', 'b']
    } else if c == '\t' {
        seq!['\\', 't']
    } else if c == '\n' {
        seq!['\\', 'n']
    } else if c == '\u{c}' {
        seq!['\\', 'f']
    } else if c == '\r' {
        seq!['\\', 'r']
    } else if (c as u32) < 32 {
        seq!['\\', 'u', '0', '0', hex_digit((c as u32 / 16) as nat), hex_digit((c as u32 % 16) as nat)]
    } else {
        seq![c]
    }
}

/// The JSON encoding of a string body, character by character.
pub open spec fn str_body_text(s: Seq<char>) -> Seq<char>
    decreases s.len(),
{
    if s.len() == 0 {
        Seq::empty()
    } else {
        esc_char(s[0]) + str_body_text(s.drop_first())
    }
}

/// The JSON encoding of a string, quotes included.
pub open spec fn json_string(s: Seq<char>) -> Seq<char> {
    seq!['"'] + str_body_text(s) + seq!['"']
}

/// The JSON encoding of a 64-bit integer.
pub open spec fn json_i64(n: int) -> Seq<char> {
    if n < 0 {
        seq!['-'] + crate::dec::dec_rep((-n) as nat)
    } else {
        crate::dec::dec_rep(n as nat)
    }
}

/// The comma-separated encodings of a sequence of integers.
pub open spec fn i64_items_text(vs: Seq<i64>) -> Seq<char>
    decreases vs.len(),
{
    if vs.len() == 0 {
        Seq::empty()
    } else if vs.len() == 1 {
        json_i64(vs[0] as int)
    } else {
        json_i64(vs[0] as int) + seq![','] + i64_items_text(vs.drop_first())
    }
}

/// The JSON encoding of an integer array, compact, as the input payload is
/// written.
pub open spec fn json_i64_arr(vs: Seq<i64>) -> Seq<char> {
    seq!['['] + i64_items_text(vs) + seq![']']
}

/// The comma-separated encodings of a sequence of strings.
pub open spec fn str_items_text(vs: Seq<Seq<char>>) -> Seq<char>
    decreases vs.len(),
{
    if vs.len() == 0 {
        Seq::empty()
    } else if vs.len() == 1 {
        json_string(vs[0])
    } else {
        json_string(vs[0]) + seq![','] + str_items_text(vs.drop_first())
    }
}

/// The JSON encoding of a string array, compact.
pub open spec fn json_str_arr(vs: Seq<Seq<char>>) -> Seq<char> {
    seq!['['] + str_items_text(vs) + seq![']']
}

/// Appends the encoding of one 64-bit integer.
fn push_i64(out: &mut Vec<char>, n: i64)
    ensures
        final(out)@ == old(out)@ + json_i64(n as int),
{
    if n < 0 {
        out.push('-');
        let mag: u64 = (-(n as i128)) as u64;
        crate::dec::push_dec_u64(out, mag);
        proof {
            assert(out@ =~= old(out)@ + json_i64(n as int));
        }
    } else {
        crate::dec::push_dec_u64(out, n as u64);
    }
}

/// Appends the encodings of the items from index `k` on, comma-separated.
fn push_i64_items(out: &mut Vec<char>, items: &Vec<i64>, k: usize)
    requires
        k <= items.len(),
    ensures
        final(out)@ == old(out)@ + i64_items_text(items@.skip(k as int)),
    decreases items.len() - k,
{
    if k < items.len() {
        push_i64(out, items[k]);
        if k + 1 < items.len() {
            out.push(',');
            push_i64_items(out, items, k + 1);
        }
        proof {
            let rest = items@.skip(k as int);
            assert(rest.len() == items@.len() - k);
            assert(rest[0] == items@[k as int]);
            assert(rest.drop_first() =~= items@.skip(k as int + 1));
            assert(out@ =~= old(out)@ + i64_items_text(rest));
        }
    } else {
        proof {
            assert(items@.skip(k as int) =~= Seq::<i64>::empty());
            assert(out@ =~= old(out)@ + i64_items_text(items@.skip(k as int)));
        }
    }
}

/// Writes the JSON encoding of an integer array, as the client sends it.
pub fn encode_i64_array(items: &Vec<i64>) -> (r: Vec<char>)
    ensures
        r@ == json_i64_arr(items@),
{
    let mut out: Vec<char> = Vec::new();
    out.push('[');
    push_i64_items(&mut out, items, 0);
    out.push(']');
    proof {
        assert(items@.skip(0) =~= items@);
        assert(out@ =~= json_i64_arr(items@));
    }
    out
}

/// Appends the encoding of one character inside a string literal.
fn push_esc_char(out: &mut Vec<char>, c: char)
    ensures
        final(out)@ == old(out)@ + esc_char(c),
{
    if c == '"' {
        out.push('\\');
        out.push('"');
    } else if c == '\\' {
        out.push('\\');
        out.push('\\');
    } else if c == '\u{8}' {
        out.push('\\');
        out.push('b');
    } else if c == '\t' {
        out.push('\\');
        out.push('t');
    } else if c == '\n' {
        out.push('\\');
        out.push('n');
    } else if c == '\u{c}' {
        out.push('\\');
        out.push('f');
    } else if c == '\r' {
        out.push('\\');
        out.push('r');
    } else {
        let u = c as u32;
        if u < 32 {
            out.push('\\');
            out.push('u');
            out.push('0');
            out.push('0');
            let hi = (u / 16) as u8;
            let lo = (u % 16) as u8;
            let hc = if hi < 10 {
                (48 + hi) as char
            } else {
                (87 + hi) as char
            };
            let lc = if lo < 10 {
                (48 + lo) as char
            } else {
                (87 + lo) as char
            };
            out.push(hc);
            out.push(lc);
        } else {
            out.push(c);
        }
    }
    proof {
        assert(out@ =~= old(out)@ + esc_char(c));
    }
}

/// Appends the encoding of the characters of `s` from index `k` on.
fn push_str_body(out: &mut Vec<char>, s: &Vec<char>, k: usize)
    requires
        k <= s.len(),
    ensures
        final(out)@ == old(out)@ + str_body_text(s@.skip(k as int)),
    decreases s.len() - k,
{
    if k < s.len() {
        push_esc_char(out, s[k]);
        push_str_body(out, s, k + 1);
        proof {
            let rest = s@.skip(k as int);
            assert(rest[0] == s@[k as int]);
            assert(rest.drop_first() =~= s@.skip(k as int + 1));
            assert(out@ =~= old(out)@ + str_body_text(rest));
        }
    } else {
        proof {
            assert(s@.skip(k as int) =~= Seq::<char>::empty());
            assert(out@ =~= old(out)@ + str_body_text(s@.skip(k as int)));
        }
    }
}

/// Appends the quoted JSON encoding of a string.
pub fn push_json_string(out: &mut Vec<char>, s: &Vec<char>)
    ensures
        final(out)@ == old(out)@ + json_string(s@),
{
    out.push('"');
    push_str_body(out, s, 0);
    out.push('"');
    proof {
        assert(s@.skip(0) =~= s@);
        assert(out@ =~= old(out)@ + json_string(s@));
    }
}

/// Appends the encodings of the strings from index `k` on, comma-separated.
fn push_str_items(out: &mut Vec<char>, items: &Vec<Vec<char>>, k: usize)
    requires
        k <= items.len(),
    ensures
        final(out)@ == old(out)@ + str_items_text(list_view(*items).skip(k as int)),
    decreases items.len() - k,
{
    if k < items.len() {
        push_json_string(out, &items[k]);
        if k + 1 < items.len() {
            out.push(',');
            push_str_items(out, items, k + 1);
        }
        proof {
            let rest = list_view(*items).skip(k as int);
            assert(rest[0] == items@[k as int]@);
            assert(rest.drop_first() =~= list_view(*items).skip(k as int + 1));
            assert(out@ =~= old(out)@ + str_items_text(rest));
        }
    } else {
        proof {
            assert(list_view(*items).skip(k as int) =~= Seq::<Seq<char>>::empty());
            assert(out@ =~= old(out)@ + str_items_text(list_view(*items).skip(k as int)));
        }
    }
}

/// Writes the JSON encoding of a string array, as the client sends it.
pub fn encode_str_array(items: &Vec<Vec<char>>) -> (r: Vec<char>)
    ensures
        r@ == json_str_arr(list_view(*items)),
{
    let mut out: Vec<char> = Vec::new();
    out.push('[');
    push_str_items(&mut out, items, 0);
    out.push(']');
    proof {
        assert(list_view(*items).skip(0) =~= list_view(*items));
        assert(out@ =~= json_str_arr(list_view(*items)));
    }
    out
}

/// The index before which the trailing whitespace of `s[..j]` begins.
pub open spec fn trim_end_idx(s: Seq<char>, j: int) -> int
    decreases j,
{
    if j <= 0 {
        0
    } else if is_ws(s[j - 1]) {
        trim_end_idx(s, j - 1)
    } else {
        j
    }
}

/// The text without its leading and trailing whitespace.
pub open spec fn trim_text(s: Seq<char>) -> Seq<char> {
    let a = ws_end(s, 0);
    let b = trim_end_idx(s, s.len() as int);
    if a < b {
        s.subrange(a, b)
    } else {
        Seq::empty()
    }
}

fn trim_back(s: &Vec<char>, j: usize) -> (r: usize)
    requires
        j <= s.len(),
    ensures
        r == trim_end_idx(s@, j as int),
        r <= j,
    decreases j,
{
    if j > 0 && is_ws_exec(s[j - 1]) {
        trim_back(s, j - 1)
    } else {
        j
    }
}

/// Removes leading and trailing whitespace, as `trim_text` describes.
pub fn trim_chars(s: &Vec<char>) -> (r: Vec<char>)
    ensures
        r@ == trim_text(s@),
{
    let a = skip_ws(s, 0);
    let b = trim_back(s, s.len());
    let mut out: Vec<char> = Vec::new();
    if a < b {
        let mut k = a;
        while k < b
            invariant
                a <= k <= b <= s.len(),
                out@ == s@.subrange(a as int, k as int),
            decreases b - k,
        {
            out.push(s[k]);
            proof {
                assert(out@ =~= s@.subrange(a as int, k as int + 1));
            }
            k += 1;
        }
        proof {
            assert(out@ =~= trim_text(s@));
        }
    } else {
        proof {
            assert(out@ =~= trim_text(s@));
        }
    }
    out
}

} // verus!

verus! {

/// The characters of a text, one by one.
pub fn to_chars(s: &str) -> (r: Vec<char>)
    ensures
        r@ == s@,
{
    let n = s.unicode_len();
    let mut out: Vec<char> = Vec::new();
    let mut k: usize = 0;
    while k < n
        invariant
            k <= n,
            n == s@.len(),
            out@ == s@.subrange(0, k as int),
        decreases n - k,
    {
        out.push(s.get_char(k));
        proof {
            assert(out@ =~= s@.subrange(0, k as int + 1));
        }
        k += 1;
    }
    proof {
        assert(out@ =~= s@);
    }
    out
}

/// Relies on String::push: it appends exactly the one character.
#[verifier::external_body]
fn string_push(s: &mut String, c: char)
    ensures
        final(s)@ == old(s)@.push(c),
{
    s.push(c);
}

/// A string holding exactly the given characters.
pub fn chars_to_string(v: &Vec<char>) -> (r: String)
    ensures
        r@ == v@,
{
    let mut out = String::new();
    let mut k: usize = 0;
    while k < v.len()
        invariant
            k <= v.len(),
            out@ == v@.subrange(0, k as int),
        decreases v.len() - k,
    {
        string_push(&mut out, v[k]);
        proof {
            assert(out@ =~= v@.subrange(0, k as int + 1));
        }
        k += 1;
    }
    proof {
        assert(out@ =~= v@);
    }
    out
}

} // verus!
