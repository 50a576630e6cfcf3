//! The laws the client obeys, stated over the same specification functions
//! that its contracts use and proved once for all inputs.
use vstd::prelude::*;

use crate::client::handle_i64_post;
use crate::client::handle_str_post;
use crate::client::prepare_i64_post;
use crate::client::prepare_str_post;
use crate::client::strs_view;
use crate::client::PreparedRequest;
use crate::client::Vibesort;
use crate::client::VibesortError;
use crate::dec::dec_rep;
use crate::dec::digits_val;
use crate::dec::is_digit;
use crate::dec::lemma_dec_rep;
use crate::json::digits_end;
use crate::json::i64_items_text;
use crate::json::is_delim;
use crate::json::is_ws;
use crate::json::json_i64;
use crate::json::json_i64_arr;
use crate::json::esc_char;
use crate::json::hex_digit;
use crate::json::hex_val;
use crate::json::json_str_arr;
use crate::json::json_string;
use crate::json::sp_i64;
use crate::json::sp_i64_items;
use crate::json::sp_i64_list;
use crate::json::sp_str_items;
use crate::json::sp_str_list;
use crate::json::sp_string_body;
use crate::json::str_body_text;
use crate::json::str_items_text;
use crate::json::sp_top;
use crate::json::trim_end_idx;
use crate::json::trim_text;
use crate::json::ws_end;

verus! {

/// A delimiter is never a digit, and a digit is never whitespace, a sign,
/// or a bracket.
proof fn lemma_digit_class(c: char)
    ensures
        is_digit(c) ==> !is_ws(c) && !is_delim(c) && c != '-' && c != '[',
        is_delim(c) ==> !is_digit(c),
{
}

/// Scanning a run of digits that ends at a non-digit stops exactly there.
proof fn lemma_digits_end_exact(s: Seq<char>, i: int, e: int)
    requires
        0 <= i <= e <= s.len(),
        forall|k: int| i <= k < e ==> is_digit(#[trigger] s[k]),
        e == s.len() || !is_digit(s[e]),
    ensures
        digits_end(s, i) == e,
    decreases e - i,
{
    if i < e {
        lemma_digits_end_exact(s, i + 1, e);
    }
}

/// Reading an encoded integer back: at a position where the text holds
/// `json_i64(v)` followed by a delimiter or the end, the integer parser
/// yields exactly `v` and stops right after it.
proof fn lemma_sp_i64_at(s: Seq<char>, i: int, v: i64)
    requires
        0 <= i,
        i + json_i64(v as int).len() <= s.len(),
        s.subrange(i, i + json_i64(v as int).len()) == json_i64(v as int),
        i + json_i64(v as int).len() == s.len() || is_delim(s[i + json_i64(v as int).len()]),
    ensures
        sp_i64(s, i) == Some((v as int, i + json_i64(v as int).len())),
{
    let enc = json_i64(v as int);
    let e = i + enc.len();
    if v >= 0 {
        let mag = v as nat;
        lemma_dec_rep(mag);
        assert(enc == dec_rep(mag));
        assert(s[i] == enc[0]);
        assert(is_digit(s[i]));
        lemma_digit_class(s[i]);
        assert(s[i] != '-');
        assert forall|k: int| i <= k < e implies #[trigger] s[k] == enc[k - i] && is_digit(
            s[k],
        ) by {
            assert(s.subrange(i, e)[k - i] == s[k]);
        }
        if e < s.len() {
            lemma_digit_class(s[e]);
        }
        lemma_digits_end_exact(s, i, e);
        if s[i] == '0' {
            assert(enc[0] == '0');
            assert(mag == 0);
            assert(enc.len() == 1);
        }
        assert(s.subrange(i, e) == enc);
        assert(digits_val(s.subrange(i, e)) == mag);
    } else {
        let mag = (-(v as int)) as nat;
        lemma_dec_rep(mag);
        assert(enc =~= seq!['-'] + dec_rep(mag));
        assert(s[i] == enc[0]);
        assert(enc[0] == '-');
        let d0 = i + 1;
        let rep = dec_rep(mag);
        assert forall|k: int| d0 <= k < e implies #[trigger] s[k] == rep[k - d0] && is_digit(
            s[k],
        ) by {
            assert(s.subrange(i, e)[k - i] == s[k]);
            assert(enc[k - i] == rep[k - i - 1]);
        }
        assert(is_digit(s[d0]));
        if e < s.len() {
            lemma_digit_class(s[e]);
        }
        lemma_digits_end_exact(s, d0, e);
        if s[d0] == '0' {
            assert(rep[0] == '0');
            assert(mag == 0);
        }
        assert(s.subrange(d0, e) =~= rep);
        assert(digits_val(s.subrange(d0, e)) == mag);
    }
}

/// Reading an encoded item list back: where the rest of the text from `i`
/// is the comma-separated encodings of `vs` and the closing bracket, the
/// item loop yields exactly `acc` extended by `vs` and consumes the text.
proof fn lemma_items_at(s: Seq<char>, i: int, vs: Seq<i64>, acc: Seq<i64>)
    requires
        0 <= i <= s.len(),
        vs.len() >= 1,
        s.subrange(i, s.len() as int) == i64_items_text(vs) + seq![']'],
    ensures
        sp_i64_items(s, i, acc) == Some((acc + vs, s.len() as int)),
    decreases vs.len(),
{
    let tail = i64_items_text(vs) + seq![']'];
    let v0 = vs[0];
    let enc = json_i64(v0 as int);
    let j = i + enc.len();
    assert(s.len() - i == tail.len());
    assert forall|k: int| 0 <= k < tail.len() implies #[trigger] s[i + k] == tail[k] by {
        assert(s.subrange(i, s.len() as int)[k] == s[i + k]);
    }
    if vs.len() == 1 {
        assert(i64_items_text(vs) == enc);
        assert forall|m: int| 0 <= m < enc.len() implies #[trigger] s.subrange(i, j)[m]
            == enc[m] by {
            assert(s[i + m] == tail[m]);
        }
        assert(s.subrange(i, j) =~= enc);
        assert(s[i + enc.len()] == tail[enc.len() as int]);
        assert(s[j] == ']');
        lemma_sp_i64_at(s, i, v0);
        assert(sp_i64(s, i) == Some((v0 as int, j)));
        assert(!is_ws(s[j]));
        assert(ws_end(s, j) == j);
        assert(j + 1 == s.len());
        assert(sp_i64_items(s, i, acc) == Some((acc.push(v0), s.len() as int)));
        assert(acc.push(v0) =~= acc + vs);
    } else {
        let rest = vs.drop_first();
        assert(i64_items_text(vs) == enc + seq![','] + i64_items_text(rest));
        assert forall|m: int| 0 <= m < enc.len() implies #[trigger] s.subrange(i, j)[m]
            == enc[m] by {
            assert(s[i + m] == tail[m]);
            assert(tail[m] == enc[m]);
        }
        assert(s.subrange(i, j) =~= enc);
        assert(s[i + enc.len()] == tail[enc.len() as int]);
        assert(tail[enc.len() as int] == ',');
        assert(s[j] == ',');
        lemma_sp_i64_at(s, i, v0);
        assert(sp_i64(s, i) == Some((v0 as int, j)));
        assert(!is_ws(s[j]));
        assert(ws_end(s, j) == j);
        // the next item begins right after the comma
        assert(rest.len() >= 1);
        let enc1 = json_i64(rest[0] as int);
        assert(i64_items_text(rest)[0] == enc1[0]) by {
            if rest.len() == 1 {
            } else {
                assert(i64_items_text(rest) == enc1 + seq![','] + i64_items_text(
                    rest.drop_first(),
                ));
            }
        }
        assert(s[i + (enc.len() + 1)] == tail[enc.len() + 1 as int]);
        assert(tail[enc.len() + 1 as int] == i64_items_text(rest)[0]);
        assert(s[j + 1] == enc1[0]);
        if rest[0] >= 0 {
            lemma_dec_rep(rest[0] as nat);
            assert(is_digit(enc1[0]));
            lemma_digit_class(enc1[0]);
        } else {
            lemma_dec_rep((-(rest[0] as int)) as nat);
            assert(enc1[0] == '-');
        }
        assert(!is_ws(s[j + 1]));
        assert(ws_end(s, j + 1) == j + 1);
        let tail2 = i64_items_text(rest) + seq![']'];
        assert forall|m: int| 0 <= m < tail2.len() implies #[trigger] s.subrange(
            j + 1,
            s.len() as int,
        )[m] == tail2[m] by {
            assert(s[i + (enc.len() + 1 + m)] == tail[enc.len() + 1 + m]);
            assert(tail[enc.len() + 1 + m] == tail2[m]);
            assert(s.subrange(j + 1, s.len() as int)[m] == s[j + 1 + m]);
        }
        assert(s.subrange(j + 1, s.len() as int) =~= i64_items_text(rest) + seq![']']);
        lemma_items_at(s, j + 1, rest, acc.push(v0));
        assert(acc.push(v0) + rest =~= acc + vs);
        assert(sp_i64_items(s, i, acc) == Some((acc + vs, s.len() as int)));
    }
}

/// Encoding then decoding loses nothing: the client's own encoding of any
/// integer sequence reads back as exactly that sequence, and carries no
/// whitespace to trim. So when the service echoes the encoded input, the
/// decoded result is the input itself.
pub proof fn lemma_i64_round_trip(vs: Seq<i64>)
    ensures
        sp_i64_list(json_i64_arr(vs)) == Some(vs),
        trim_text(json_i64_arr(vs)) == json_i64_arr(vs),
{
    let s = json_i64_arr(vs);
    assert(s[0] == '[');
    assert(!is_ws(s[0]));
    assert(ws_end(s, 0) == 0);
    if vs.len() == 0 {
        assert(s =~= seq!['[', ']']);
        assert(s[1] == ']');
        assert(!is_ws(s[1]));
        assert(ws_end(s, 1) == 1);
        assert(ws_end(s, 2) == 2);
        assert(sp_i64_list(s) == Some(Seq::<i64>::empty()));
        assert(Seq::<i64>::empty() =~= vs);
    } else {
        let enc0 = json_i64(vs[0] as int);
        assert(i64_items_text(vs)[0] == enc0[0]) by {
            if vs.len() == 1 {
            } else {
                assert(i64_items_text(vs) == enc0 + seq![','] + i64_items_text(vs.drop_first()));
            }
        }
        assert(s[1] == enc0[0]);
        if vs[0] >= 0 {
            lemma_dec_rep(vs[0] as nat);
            assert(is_digit(enc0[0]));
            lemma_digit_class(enc0[0]);
            assert(s[1] != ']');
        } else {
            lemma_dec_rep((-(vs[0] as int)) as nat);
            assert(enc0[0] == '-');
            assert(s[1] != ']');
        }
        assert(!is_ws(s[1]));
        assert(ws_end(s, 1) == 1);
        let tail = i64_items_text(vs) + seq![']'];
        assert forall|m: int| 0 <= m < tail.len() implies #[trigger] s.subrange(
            1,
            s.len() as int,
        )[m] == tail[m] by {
            assert(s.subrange(1, s.len() as int)[m] == s[1 + m]);
            assert(s[1 + m] == tail[m]);
        }
        assert(s.subrange(1, s.len() as int) =~= i64_items_text(vs) + seq![']']);
        lemma_items_at(s, 1, vs, Seq::empty());
        assert(Seq::<i64>::empty() + vs =~= vs);
        assert(ws_end(s, s.len() as int) == s.len() as int);
        assert(sp_i64_list(s) == Some(vs));
    }
    // the encoding begins with '[' and ends with ']', so nothing is trimmed
    assert(s[s.len() - 1] == ']');
    assert(!is_ws(s[s.len() - 1]));
    assert(trim_end_idx(s, s.len() as int) == s.len() as int);
    assert(trim_text(s) =~= s);
}

/// Whether two integer results carry the same observable outcome: the same
/// values on success, the same error variant and message on failure.
pub open spec fn same_i64_outcome(
    r1: Result<Vec<i64>, VibesortError>,
    r2: Result<Vec<i64>, VibesortError>,
) -> bool {
    match (r1, r2) {
        (Ok(v1), Ok(v2)) => v1@ == v2@,
        (Err(e1), Err(e2)) => same_error(e1, e2),
        _ => false,
    }
}

/// Whether two string results carry the same observable outcome.
pub open spec fn same_str_outcome(
    r1: Result<Vec<String>, VibesortError>,
    r2: Result<Vec<String>, VibesortError>,
) -> bool {
    match (r1, r2) {
        (Ok(v1), Ok(v2)) => strs_view(v1@) == strs_view(v2@),
        (Err(e1), Err(e2)) => same_error(e1, e2),
        _ => false,
    }
}

/// Whether two errors are the same variant with the same message.
pub open spec fn same_error(e1: VibesortError, e2: VibesortError) -> bool {
    match (e1, e2) {
        (VibesortError::HttpError(m1), VibesortError::HttpError(m2)) => m1@ == m2@,
        (VibesortError::JsonError(m1), VibesortError::JsonError(m2)) => m1@ == m2@,
        (VibesortError::ApiError(m1), VibesortError::ApiError(m2)) => m1@ == m2@,
        (VibesortError::InvalidResponse, VibesortError::InvalidResponse) => true,
        (VibesortError::ParseError(m1), VibesortError::ParseError(m2)) => m1@ == m2@,
        _ => false,
    }
}

/// Interpreting the same status and body twice gives the same outcome:
/// the response handling holds no hidden state across calls.
pub proof fn lemma_handle_i64_deterministic(
    status: u16,
    body: Seq<char>,
    r1: Result<Vec<i64>, VibesortError>,
    r2: Result<Vec<i64>, VibesortError>,
)
    requires
        handle_i64_post(r1, status, body),
        handle_i64_post(r2, status, body),
    ensures
        same_i64_outcome(r1, r2),
{
}

/// As `lemma_handle_i64_deterministic`, for string results.
pub proof fn lemma_handle_str_deterministic(
    status: u16,
    body: Seq<char>,
    r1: Result<Vec<String>, VibesortError>,
    r2: Result<Vec<String>, VibesortError>,
)
    requires
        handle_str_post(r1, status, body),
        handle_str_post(r2, status, body),
    ensures
        same_str_outcome(r1, r2),
{
}

/// The echo law in full: under a success status whose reply's first choice
/// is the client's own encoding of `vs`, the handled result is `Ok` with
/// exactly `vs`, unmodified and untruncated.
pub proof fn lemma_echoed_reply_sorted(
    status: u16,
    body: Seq<char>,
    vs: Seq<i64>,
    r: Result<Vec<i64>, VibesortError>,
)
    requires
        200 <= status < 300,
        sp_top(body) matches Some(cs) && cs.len() > 0 && cs[0] == json_i64_arr(vs),
        handle_i64_post(r, status, body),
    ensures
        r matches Ok(v) && v@ == vs,
{
    lemma_i64_round_trip(vs);
}

/// A hexadecimal digit character reads back as its value.
proof fn lemma_hex_digit_val(d: nat)
    requires
        d < 16,
    ensures
        hex_val(hex_digit(d)) == Some(d as u32),
{
}

/// Reading an encoded string body back: at a position where the text holds
/// the escaped form of `s0` and then a closing quote, the string parser
/// yields exactly `acc` extended by `s0` and stops after the quote.
proof fn lemma_string_body_at(t: Seq<char>, i: int, s0: Seq<char>, acc: Seq<char>)
    requires
        0 <= i,
        i + str_body_text(s0).len() + 1 <= t.len(),
        t.subrange(i, i + str_body_text(s0).len() + 1) == str_body_text(s0) + seq!['"'],
    ensures
        sp_string_body(t, i, acc) == Some((acc + s0, i + str_body_text(s0).len() + 1)),
    decreases s0.len(),
{
    let bt = str_body_text(s0);
    let e = i + bt.len() + 1;
    assert forall|k: int| 0 <= k < bt.len() + 1 implies #[trigger] t[i + k] == (bt
        + seq!['"'])[k] by {
        assert(t.subrange(i, e)[k] == t[i + k]);
    }
    if s0.len() == 0 {
        assert(t[i + 0] == '"');
        assert(acc + s0 =~= acc);
    } else {
        let c = s0[0];
        let rest = s0.drop_first();
        assert(bt == esc_char(c) + str_body_text(rest));
        let el = esc_char(c).len();
        let i2 = i + el;
        let bt2 = str_body_text(rest);
        assert forall|m: int| 0 <= m < bt2.len() + 1 implies #[trigger] t.subrange(
            i2,
            i2 + bt2.len() + 1,
        )[m] == (bt2 + seq!['"'])[m] by {
            assert(t.subrange(i2, i2 + bt2.len() + 1)[m] == t[i2 + m]);
            assert(t[i + (el + m)] == (bt + seq!['"'])[el + m]);
            assert((bt + seq!['"'])[el + m] == (bt2 + seq!['"'])[m]);
        }
        assert(t.subrange(i2, i2 + bt2.len() + 1) =~= bt2 + seq!['"']);
        lemma_string_body_at(t, i2, rest, acc.push(c));
        assert(acc.push(c) + rest =~= acc + s0);
        if c == '"' {
            assert(t[i + 0] == '\\' && t[i + 1] == '"');
        } else if c == '\\' {
            assert(t[i + 0] == '\\' && t[i + 1] == '\\');
        } else if c == '\u{8}' {
            assert(t[i + 0] == '\\' && t[i + 1] == 'b');
        } else if c == '\t' {
            assert(t[i + 0] == '\\' && t[i + 1] == 't');
        } else if c == '\n' {
            assert(t[i + 0] == '\\' && t[i + 1] == 'n');
        } else if c == '\u{c}' {
            assert(t[i + 0] == '\\' && t[i + 1] == 'f');
        } else if c == '\r' {
            assert(t[i + 0] == '\\' && t[i + 1] == 'r');
        } else if (c as u32) < 32 {
            let u = c as u32;
            assert(t[i + 0] == '\\' && t[i + 1] == 'u');
            assert(t[i + 2] == '0' && t[i + 3] == '0');
            assert(t[i + 4] == hex_digit((u / 16) as nat));
            assert(t[i + 5] == hex_digit((u % 16) as nat));
            lemma_hex_digit_val((u / 16) as nat);
            lemma_hex_digit_val((u % 16) as nat);
            assert(hex_val(t[i + 2]) == Some(0u32));
            assert(hex_val(t[i + 3]) == Some(0u32));
            let cp = 0 * 4096 + 0 * 256 + (u / 16) * 16 + (u % 16);
            assert(cp == u);
            vstd::utf8::char_u32_cast(c, u);
            assert((cp as u32) as char == c);
        } else {
            assert(t[i + 0] == c);
            assert(c != '"' && c != '\\');
        }
    }
}

/// Reading an encoded string list back, as `lemma_items_at` does for
/// integers.
proof fn lemma_str_items_at(s: Seq<char>, i: int, vs: Seq<Seq<char>>, acc: Seq<Seq<char>>)
    requires
        0 <= i <= s.len(),
        vs.len() >= 1,
        s.subrange(i, s.len() as int) == str_items_text(vs) + seq![']'],
    ensures
        sp_str_items(s, i, acc) == Some((acc + vs, s.len() as int)),
    decreases vs.len(),
{
    let tail = str_items_text(vs) + seq![']'];
    let v0 = vs[0];
    let enc = json_string(v0);
    let j = i + enc.len();
    assert(s.len() - i == tail.len());
    assert forall|k: int| 0 <= k < tail.len() implies #[trigger] s[i + k] == tail[k] by {
        assert(s.subrange(i, s.len() as int)[k] == s[i + k]);
    }
    assert(enc == seq!['"'] + str_body_text(v0) + seq!['"']);
    assert(enc.len() == str_body_text(v0).len() + 2);
    if vs.len() == 1 {
        assert(str_items_text(vs) == enc);
        assert(s[i + 0] == '"');
        let bl = str_body_text(v0).len() as int;
        assert forall|m: int| 0 <= m < bl + 1 implies #[trigger] s.subrange(
            i + 1,
            i + 1 + bl + 1,
        )[m] == (str_body_text(v0) + seq!['"'])[m] by {
            assert(s.subrange(i + 1, i + 1 + bl + 1)[m] == s[i + (1 + m)]);
            assert(s[i + (1 + m)] == tail[1 + m]);
            assert(tail[1 + m] == (str_body_text(v0) + seq!['"'])[m]);
        }
        assert(s.subrange(i + 1, i + 1 + bl + 1) =~= str_body_text(v0) + seq!['"']);
        lemma_string_body_at(s, i + 1, v0, Seq::empty());
        assert(sp_string_body(s, i + 1, Seq::empty()) == Some((Seq::empty() + v0, j)));
        assert(Seq::<char>::empty() + v0 =~= v0);
        assert(s[i + enc.len()] == tail[enc.len() as int]);
        assert(s[j] == ']');
        assert(!is_ws(s[j]));
        assert(ws_end(s, j) == j);
        assert(j + 1 == s.len());
        assert(acc.push(v0) =~= acc + vs);
    } else {
        let rest = vs.drop_first();
        assert(str_items_text(vs) == enc + seq![','] + str_items_text(rest));
        assert(s[i + 0] == '"');
        let bl = str_body_text(v0).len() as int;
        assert forall|m: int| 0 <= m < bl + 1 implies #[trigger] s.subrange(
            i + 1,
            i + 1 + bl + 1,
        )[m] == (str_body_text(v0) + seq!['"'])[m] by {
            assert(s.subrange(i + 1, i + 1 + bl + 1)[m] == s[i + (1 + m)]);
            assert(s[i + (1 + m)] == tail[1 + m]);
            assert(tail[1 + m] == (str_body_text(v0) + seq!['"'])[m]);
        }
        assert(s.subrange(i + 1, i + 1 + bl + 1) =~= str_body_text(v0) + seq!['"']);
        lemma_string_body_at(s, i + 1, v0, Seq::empty());
        assert(sp_string_body(s, i + 1, Seq::empty()) == Some((Seq::empty() + v0, j)));
        assert(Seq::<char>::empty() + v0 =~= v0);
        assert(s[i + enc.len()] == tail[enc.len() as int]);
        assert(tail[enc.len() as int] == ',');
        assert(s[j] == ',');
        assert(!is_ws(s[j]));
        assert(ws_end(s, j) == j);
        assert(rest.len() >= 1);
        assert(s[i + (enc.len() + 1)] == tail[enc.len() + 1 as int]);
        assert(tail[enc.len() + 1 as int] == str_items_text(rest)[0]);
        assert(str_items_text(rest)[0] == '"') by {
            if rest.len() == 1 {
            } else {
                assert(str_items_text(rest) == json_string(rest[0]) + seq![','] + str_items_text(
                    rest.drop_first(),
                ));
            }
        }
        assert(s[j + 1] == '"');
        assert(!is_ws(s[j + 1]));
        assert(ws_end(s, j + 1) == j + 1);
        let tail2 = str_items_text(rest) + seq![']'];
        assert forall|m: int| 0 <= m < tail2.len() implies #[trigger] s.subrange(
            j + 1,
            s.len() as int,
        )[m] == tail2[m] by {
            assert(s[i + (enc.len() + 1 + m)] == tail[enc.len() + 1 + m]);
            assert(tail[enc.len() + 1 + m] == tail2[m]);
            assert(s.subrange(j + 1, s.len() as int)[m] == s[j + 1 + m]);
        }
        assert(s.subrange(j + 1, s.len() as int) =~= str_items_text(rest) + seq![']']);
        lemma_str_items_at(s, j + 1, rest, acc.push(v0));
        assert(acc.push(v0) + rest =~= acc + vs);
    }
}

/// Encoding then decoding loses nothing for strings either: the client's
/// own encoding of any string sequence reads back as exactly that
/// sequence, and carries no whitespace to trim.
pub proof fn lemma_str_round_trip(vs: Seq<Seq<char>>)
    ensures
        sp_str_list(json_str_arr(vs)) == Some(vs),
        trim_text(json_str_arr(vs)) == json_str_arr(vs),
{
    let s = json_str_arr(vs);
    assert(s[0] == '[');
    assert(!is_ws(s[0]));
    assert(ws_end(s, 0) == 0);
    if vs.len() == 0 {
        assert(s =~= seq!['[', ']']);
        assert(s[1] == ']');
        assert(!is_ws(s[1]));
        assert(ws_end(s, 1) == 1);
        assert(ws_end(s, 2) == 2);
        assert(sp_str_list(s) == Some(Seq::<Seq<char>>::empty()));
        assert(Seq::<Seq<char>>::empty() =~= vs);
    } else {
        assert(str_items_text(vs)[0] == '"') by {
            if vs.len() == 1 {
            } else {
                assert(str_items_text(vs) == json_string(vs[0]) + seq![','] + str_items_text(
                    vs.drop_first(),
                ));
            }
        }
        assert(s[1] == '"');
        assert(!is_ws(s[1]));
        assert(s[1] != ']');
        assert(ws_end(s, 1) == 1);
        let tail = str_items_text(vs) + seq![']'];
        assert forall|m: int| 0 <= m < tail.len() implies #[trigger] s.subrange(
            1,
            s.len() as int,
        )[m] == tail[m] by {
            assert(s.subrange(1, s.len() as int)[m] == s[1 + m]);
            assert(s[1 + m] == tail[m]);
        }
        assert(s.subrange(1, s.len() as int) =~= str_items_text(vs) + seq![']']);
        lemma_str_items_at(s, 1, vs, Seq::empty());
        assert(Seq::<Seq<char>>::empty() + vs =~= vs);
        assert(ws_end(s, s.len() as int) == s.len() as int);
        assert(sp_str_list(s) == Some(vs));
    }
    assert(s[s.len() - 1] == ']');
    assert(!is_ws(s[s.len() - 1]));
    assert(trim_end_idx(s, s.len() as int) == s.len() as int);
    assert(trim_text(s) =~= s);
}

/// The echo law for strings: under a success status whose reply's first
/// choice is the client's own encoding of `vs`, the handled result is `Ok`
/// with exactly `vs`.
pub proof fn lemma_echoed_reply_sorted_str(
    status: u16,
    body: Seq<char>,
    vs: Seq<Seq<char>>,
    r: Result<Vec<String>, VibesortError>,
)
    requires
        200 <= status < 300,
        sp_top(body) matches Some(cs) && cs.len() > 0 && cs[0] == json_str_arr(vs),
        handle_str_post(r, status, body),
    ensures
        r matches Ok(v) && strs_view(v@) == vs,
{
    lemma_str_round_trip(vs);
}

/// Preparing the same input under the same configuration twice gives the
/// same request, field for field: the request construction holds no hidden
/// state across calls.
pub proof fn lemma_prepare_i64_deterministic(
    c: Vibesort,
    items: Seq<i64>,
    r1: PreparedRequest,
    r2: PreparedRequest,
)
    requires
        prepare_i64_post(r1, c, items),
        prepare_i64_post(r2, c, items),
    ensures
        r1.url@ == r2.url@,
        r1.authorization@ == r2.authorization@,
        r1.content_type@ == r2.content_type@,
        r1.body@ == r2.body@,
{
}

/// As `lemma_prepare_i64_deterministic`, for string items.
pub proof fn lemma_prepare_str_deterministic(
    c: Vibesort,
    items: Seq<String>,
    r1: PreparedRequest,
    r2: PreparedRequest,
)
    requires
        prepare_str_post(r1, c, items),
        prepare_str_post(r2, c, items),
    ensures
        r1.url@ == r2.url@,
        r1.authorization@ == r2.authorization@,
        r1.content_type@ == r2.content_type@,
        r1.body@ == r2.body@,
{
}

} // verus!
