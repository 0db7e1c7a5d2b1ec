//! JSON text: a small value model, a writer and a reader.
//!
//! The document schema serializes through this layer. The writer
//! renders a value in one canonical shape: object members and array
//! items separated by `", "`, keys followed by `": "`, strings with
//! `"` and `\` escaped by a backslash, numbers in plain decimal. The
//! reader accepts exactly the grammar `sp_json` below — in particular
//! everything the writer produces — and fails loudly on anything else.
//! Parsing a written value yields the value back: `lemma_json_inversion`.

use vstd::prelude::*;
use crate::num::{spec_dec, sp_parse_u64, parse_u64, append_dec, is_digit,
    lemma_parse_dec_inversion_u64, lemma_spec_dec_digits};
use crate::strutil::push_char;

verus! {

/// A JSON value: the object member list keeps its order.
#[derive(Debug)]
pub enum JsonValue {
    Null,
    Bool(bool),
    Int(i64),
    Str(String),
    Arr(Vec<JsonValue>),
    Obj(Vec<(String, JsonValue)>),
}

/// Ghost view of a JSON value.
pub enum JsonVal {
    Null,
    Bool(bool),
    Int(i64),
    Str(Seq<char>),
    Arr(Seq<JsonVal>),
    Obj(Seq<(Seq<char>, JsonVal)>),
}

/// Recursive view of a JSON value.
pub open spec fn jv_view(v: JsonValue) -> JsonVal
    decreases v,
{
    match v {
        JsonValue::Null => JsonVal::Null,
        JsonValue::Bool(b) => JsonVal::Bool(b),
        JsonValue::Int(n) => JsonVal::Int(n),
        JsonValue::Str(s) => JsonVal::Str(s@),
        JsonValue::Arr(items) => JsonVal::Arr(jv_seq_view(items@)),
        JsonValue::Obj(members) => JsonVal::Obj(jm_seq_view(members@)),
    }
}

/// Recursive view of a value sequence.
pub open spec fn jv_seq_view(s: Seq<JsonValue>) -> Seq<JsonVal>
    decreases s,
{
    if s.len() == 0 {
        Seq::empty()
    } else {
        seq![jv_view(s[0])] + jv_seq_view(s.drop_first())
    }
}

/// Recursive view of a member sequence.
pub open spec fn jm_seq_view(s: Seq<(String, JsonValue)>) -> Seq<(Seq<char>, JsonVal)>
    decreases s,
{
    if s.len() == 0 {
        Seq::empty()
    } else {
        seq![(s[0].0@, jv_view(s[0].1))] + jm_seq_view(s.drop_first())
    }
}

impl View for JsonValue {
    type V = JsonVal;

    open spec fn view(&self) -> JsonVal {
        jv_view(*self)
    }
}

/// `jv_seq_view` maps the sequence pointwise.
pub proof fn lemma_jv_seq_view_index(s: Seq<JsonValue>, i: int)
    requires
        0 <= i < s.len(),
    ensures
        jv_seq_view(s).len() == s.len(),
        jv_seq_view(s)[i] == jv_view(s[i]),
    decreases s.len(),
{
    lemma_jv_seq_view_len(s);
    if i > 0 {
        lemma_jv_seq_view_index(s.drop_first(), i - 1);
    }
}

/// `jv_seq_view` keeps the length.
pub proof fn lemma_jv_seq_view_len(s: Seq<JsonValue>)
    ensures
        jv_seq_view(s).len() == s.len(),
    decreases s.len(),
{
    if s.len() > 0 {
        lemma_jv_seq_view_len(s.drop_first());
    }
}

/// `jm_seq_view` maps the sequence pointwise.
pub proof fn lemma_jm_seq_view_index(s: Seq<(String, JsonValue)>, i: int)
    requires
        0 <= i < s.len(),
    ensures
        jm_seq_view(s).len() == s.len(),
        jm_seq_view(s)[i] == (s[i].0@, jv_view(s[i].1)),
    decreases s.len(),
{
    lemma_jm_seq_view_len(s);
    if i > 0 {
        lemma_jm_seq_view_index(s.drop_first(), i - 1);
    }
}

/// `jm_seq_view` keeps the length.
pub proof fn lemma_jm_seq_view_len(s: Seq<(String, JsonValue)>)
    ensures
        jm_seq_view(s).len() == s.len(),
    decreases s.len(),
{
    if s.len() > 0 {
        lemma_jm_seq_view_len(s.drop_first());
    }
}

/// The escape of one string character: a backslash before a quote or a
/// backslash, a four-digit escape for a control character, every other
/// character as itself.
pub open spec fn esc_char(c: char) -> Seq<char> {
    if c == '"' || c == '\\' {
        seq!['\\', c]
    } else if (c as u32) < 32 {
        seq![
            '\\',
            'u',
            '0',
            '0',
            crate::color::spec_hex_char(((c as u32) / 16) as nat),
            crate::color::spec_hex_char(((c as u32) % 16) as nat),
        ]
    } else {
        seq![c]
    }
}

/// The escaped body of a string.
pub open spec fn se_str_body(s: Seq<char>) -> Seq<char>
    decreases s.len(),
{
    if s.len() == 0 {
        Seq::empty()
    } else {
        esc_char(s[0]) + se_str_body(s.drop_first())
    }
}

/// A rendered string: quote, escaped body, quote.
pub open spec fn se_string(s: Seq<char>) -> Seq<char> {
    seq!['"'] + se_str_body(s) + seq!['"']
}

/// A rendered integer: a minus sign for negative values, then the
/// decimal magnitude.
pub open spec fn se_i64(n: i64) -> Seq<char> {
    if n >= 0 {
        spec_dec(n as nat)
    } else {
        seq!['-'] + spec_dec((-(n as int)) as nat)
    }
}

/// The rendering of a value.
pub open spec fn se_json(v: JsonVal) -> Seq<char>
    decreases v, 1int,
{
    match v {
        JsonVal::Null => seq!['n', 'u', 'l', 'l'],
        JsonVal::Bool(b) => if b {
            seq!['t', 'r', 'u', 'e']
        } else {
            seq!['f', 'a', 'l', 's', 'e']
        },
        JsonVal::Int(n) => se_i64(n),
        JsonVal::Str(s) => se_string(s),
        JsonVal::Arr(items) => seq!['['] + se_arr_items(items) + seq![']'],
        JsonVal::Obj(members) => seq!['{'] + se_obj_items(members) + seq!['}'],
    }
}

/// The rendering of array items, separated by `", "`.
pub open spec fn se_arr_items(items: Seq<JsonVal>) -> Seq<char>
    decreases items, 2int,
{
    if items.len() == 0 {
        Seq::empty()
    } else if items.len() == 1 {
        se_json(items[0])
    } else {
        se_json(items[0]) + seq![',', ' '] + se_arr_items(items.drop_first())
    }
}

/// The rendering of object members: `"key": value`, separated by
/// `", "`.
pub open spec fn se_obj_items(members: Seq<(Seq<char>, JsonVal)>) -> Seq<char>
    decreases members, 2int,
{
    if members.len() == 0 {
        Seq::empty()
    } else {
        let m = se_string(members[0].0) + seq![':', ' '] + se_json(members[0].1);
        if members.len() == 1 {
            m
        } else {
            m + seq![',', ' '] + se_obj_items(members.drop_first())
        }
    }
}

/// Read a string body from after the opening quote to the closing
/// quote: a backslash followed by `u` reads a four-digit escape of a
/// character below 256, a backslash before anything else takes that
/// character literally. Returns the content and the position after
/// the closing quote.
pub open spec fn sp_str_body(t: Seq<char>, i: int) -> Option<(Seq<char>, int)>
    decreases t.len() - i,
{
    if i < 0 || i >= t.len() {
        None
    } else if t[i] == '"' {
        Some((Seq::empty(), i + 1))
    } else if t[i] == '\\' {
        if i + 1 < t.len() && t[i + 1] == 'u' {
            if i + 5 < t.len() && t[i + 2] == '0' && t[i + 3] == '0' && crate::color::spec_hex_digit(
                t[i + 4],
            ) is Some && crate::color::spec_hex_digit(t[i + 5]) is Some {
                let v = crate::color::spec_hex_digit(t[i + 4])->0 * 16
                    + crate::color::spec_hex_digit(t[i + 5])->0;
                match sp_str_body(t, i + 6) {
                    Some((s, j)) => Some((seq![((v as u32) as char)] + s, j)),
                    None => None,
                }
            } else {
                None
            }
        } else if i + 1 < t.len() {
            match sp_str_body(t, i + 2) {
                Some((s, j)) => Some((seq![t[i + 1]] + s, j)),
                None => None,
            }
        } else {
            None
        }
    } else {
        match sp_str_body(t, i + 1) {
            Some((s, j)) => Some((seq![t[i]] + s, j)),
            None => None,
        }
    }
}

/// Read a whole string: an opening quote, the body, the closing quote.
pub open spec fn sp_string(t: Seq<char>, i: int) -> Option<(Seq<char>, int)> {
    if 0 <= i < t.len() && t[i] == '"' {
        sp_str_body(t, i + 1)
    } else {
        None
    }
}

/// Does the literal stand at position `i`?
pub open spec fn starts_at(t: Seq<char>, i: int, p: Seq<char>) -> bool {
    0 <= i && i + p.len() <= t.len() && t.subrange(i, i + p.len() as int) == p
}

/// Read one value at position `i`.
pub open spec fn sp_json(t: Seq<char>, i: int) -> Option<(JsonVal, int)>
    decreases t.len() - i, 0int,
{
    if i < 0 || i >= t.len() {
        None
    } else if t[i] == 'n' {
        if starts_at(t, i, seq!['n', 'u', 'l', 'l']) {
            Some((JsonVal::Null, i + 4))
        } else {
            None
        }
    } else if t[i] == 't' {
        if starts_at(t, i, seq!['t', 'r', 'u', 'e']) {
            Some((JsonVal::Bool(true), i + 4))
        } else {
            None
        }
    } else if t[i] == 'f' {
        if starts_at(t, i, seq!['f', 'a', 'l', 's', 'e']) {
            Some((JsonVal::Bool(false), i + 5))
        } else {
            None
        }
    } else if t[i] == '"' {
        match sp_string(t, i) {
            Some((s, j)) => Some((JsonVal::Str(s), j)),
            None => None,
        }
    } else if t[i] == '-' {
        match sp_parse_u64(t, i + 1) {
            Some((v, j)) => if v <= 0x8000_0000_0000_0000u64 {
                Some((JsonVal::Int((-(v as int)) as i64), j))
            } else {
                None
            },
            None => None,
        }
    } else if is_digit(t[i]) {
        match sp_parse_u64(t, i) {
            Some((v, j)) => if v <= 0x7FFF_FFFF_FFFF_FFFFu64 {
                Some((JsonVal::Int(v as i64), j))
            } else {
                None
            },
            None => None,
        }
    } else if t[i] == '[' {
        if i + 1 < t.len() && t[i + 1] == ']' {
            Some((JsonVal::Arr(Seq::empty()), i + 2))
        } else {
            match sp_arr_items(t, i + 1) {
                Some((items, j)) => Some((JsonVal::Arr(items), j)),
                None => None,
            }
        }
    } else if t[i] == '{' {
        if i + 1 < t.len() && t[i + 1] == '}' {
            Some((JsonVal::Obj(Seq::empty()), i + 2))
        } else {
            match sp_obj_items(t, i + 1) {
                Some((members, j)) => Some((JsonVal::Obj(members), j)),
                None => None,
            }
        }
    } else {
        None
    }
}

/// Read one or more array items from `i` on and the closing bracket.
/// Returns the items and the position after the bracket.
pub open spec fn sp_arr_items(t: Seq<char>, i: int) -> Option<(Seq<JsonVal>, int)>
    decreases t.len() - i, 1int,
{
    if i < 0 {
        None
    } else {
        match sp_json(t, i) {
            None => None,
            Some((v, j)) => if j <= i || j > t.len() {
                None
            } else if j < t.len() && t[j] == ']' {
                Some((seq![v], j + 1))
            } else if j + 1 < t.len() && t[j] == ',' && t[j + 1] == ' ' {
                match sp_arr_items(t, j + 2) {
                    None => None,
                    Some((rest, k)) => Some((seq![v] + rest, k)),
                }
            } else {
                None
            },
        }
    }
}

/// Read one or more object members from `i` on and the closing brace.
pub open spec fn sp_obj_items(t: Seq<char>, i: int) -> Option<
    (Seq<(Seq<char>, JsonVal)>, int),
>
    decreases t.len() - i, 1int,
{
    if i < 0 {
        None
    } else {
        match sp_string(t, i) {
            None => None,
            Some((key, j0)) => if j0 <= i || j0 + 1 >= t.len() || !(t[j0] == ':' && t[j0 + 1]
                == ' ') {
                None
            } else {
                match sp_json(t, j0 + 2) {
                    None => None,
                    Some((v, j)) => if j <= j0 + 1 || j > t.len() {
                        None
                    } else if j < t.len() && t[j] == '}' {
                        Some((seq![(key, v)], j + 1))
                    } else if j + 1 < t.len() && t[j] == ',' && t[j + 1] == ' ' {
                        match sp_obj_items(t, j + 2) {
                            None => None,
                            Some((rest, k)) => Some((seq![(key, v)] + rest, k)),
                        }
                    } else {
                        None
                    },
                }
            },
        }
    }
}

/// One character of a known prefix.
proof fn lemma_prefix_char(t: Seq<char>, i: int, p: Seq<char>, k: int)
    requires
        0 <= i,
        i + p.len() <= t.len(),
        t.subrange(i, i + p.len() as int) == p,
        0 <= k < p.len(),
    ensures
        t[i + k] == p[k],
{
    assert(t.subrange(i, i + p.len() as int)[k] == t[i + k]);
}

/// A slice of a known prefix.
proof fn lemma_sub_shift(t: Seq<char>, i: int, p: Seq<char>, a: int, b: int)
    requires
        0 <= i,
        i + p.len() <= t.len(),
        t.subrange(i, i + p.len() as int) == p,
        0 <= a <= b <= p.len(),
    ensures
        t.subrange(i + a, i + b) == p.subrange(a, b),
{
    assert forall|k: int| 0 <= k < b - a implies t.subrange(i + a, i + b)[k] == p.subrange(
        a,
        b,
    )[k] by {
        assert(t.subrange(i, i + p.len() as int)[a + k] == t[i + (a + k)]);
        assert(t.subrange(i + a, i + b)[k] == t[(i + a) + k]);
        assert(p.subrange(a, b)[k] == p[a + k]);
    }
    assert(t.subrange(i + a, i + b) =~= p.subrange(a, b));
}

/// Casting a character's code point back to a character restores it.
proof fn proof_char_round(c: char)
    ensures
        ((c as u32) as char) == c,
{
    vstd::utf8::char_u32_cast(c, c as u32);
}

/// A hex digit character reads back as its value.
proof fn lemma_hex_char_digit(d: nat)
    requires
        d < 16,
    ensures
        crate::color::spec_hex_digit(crate::color::spec_hex_char(d)) == Some(d),
{
}

/// Reading a written string body (with the closing quote behind it)
/// yields the original content.
proof fn lemma_str_body_inv(s: Seq<char>, t: Seq<char>, i: int)
    requires
        0 <= i,
        i + se_str_body(s).len() + 1 <= t.len(),
        t.subrange(i, i + se_str_body(s).len() + 1) == se_str_body(s) + seq!['"'],
    ensures
        sp_str_body(t, i) == Some((s, i + se_str_body(s).len() + 1)),
    decreases s.len(),
{
    let body = se_str_body(s);
    let whole = body + seq!['"'];
    if s.len() == 0 {
        lemma_prefix_char(t, i, whole, 0);
        assert(t[i] == '"');
    } else {
        let c = s[0];
        let rest = s.drop_first();
        let brest = se_str_body(rest);
        assert(body == esc_char(c) + brest);
        if c == '"' || c == '\\' {
            lemma_prefix_char(t, i, whole, 0);
            lemma_prefix_char(t, i, whole, 1);
            assert(whole[0] == '\\');
            assert(whole[1] == c);
            assert(t[i] == '\\');
            assert(t[i + 1] == c);
            lemma_sub_shift(t, i, whole, 2, whole.len() as int);
            assert(whole.subrange(2, whole.len() as int) =~= brest + seq!['"']);
            assert(t.subrange(i + 2, i + 2 + brest.len() + 1) == brest + seq!['"']);
            lemma_str_body_inv(rest, t, i + 2);
            assert(seq![t[i + 1]] + rest =~= s);
        } else if (c as u32) < 32 {
            let hv = (((c as u32) / 16) as nat);
            let lv = (((c as u32) % 16) as nat);
            assert(hv < 2 && lv < 16);
            assert(hv * 16 + lv == c as u32);
            lemma_prefix_char(t, i, whole, 0);
            lemma_prefix_char(t, i, whole, 1);
            lemma_prefix_char(t, i, whole, 2);
            lemma_prefix_char(t, i, whole, 3);
            lemma_prefix_char(t, i, whole, 4);
            lemma_prefix_char(t, i, whole, 5);
            assert(t[i] == '\\' && t[i + 1] == 'u' && t[i + 2] == '0' && t[i + 3] == '0');
            assert(t[i + 4] == crate::color::spec_hex_char(hv));
            assert(t[i + 5] == crate::color::spec_hex_char(lv));
            lemma_hex_char_digit(hv);
            lemma_hex_char_digit(lv);
            assert(crate::color::spec_hex_digit(t[i + 4]) == Some(hv));
            assert(crate::color::spec_hex_digit(t[i + 5]) == Some(lv));
            assert(hv * 16 + lv == c as u32);
            proof_char_round(c);
            assert((((hv * 16 + lv) as u32) as char) == c);
            lemma_sub_shift(t, i, whole, 6, whole.len() as int);
            assert(whole.subrange(6, whole.len() as int) =~= brest + seq!['"']);
            assert(t.subrange(i + 6, i + 6 + brest.len() + 1) == brest + seq!['"']);
            lemma_str_body_inv(rest, t, i + 6);
            assert(seq![(((hv * 16 + lv) as u32) as char)] + rest =~= s);
        } else {
            lemma_prefix_char(t, i, whole, 0);
            assert(whole[0] == c);
            assert(t[i] == c);
            lemma_sub_shift(t, i, whole, 1, whole.len() as int);
            assert(whole.subrange(1, whole.len() as int) =~= brest + seq!['"']);
            assert(t.subrange(i + 1, i + 1 + brest.len() + 1) == brest + seq!['"']);
            lemma_str_body_inv(rest, t, i + 1);
            assert(seq![t[i]] + rest =~= s);
        }
    }
}

/// Reading a written string yields the original content.
proof fn lemma_string_inv(s: Seq<char>, t: Seq<char>, i: int)
    requires
        starts_at(t, i, se_string(s)),
    ensures
        sp_string(t, i) == Some((s, i + se_string(s).len() as int)),
{
    let whole = se_string(s);
    let body = se_str_body(s);
    lemma_prefix_char(t, i, whole, 0);
    assert(whole[0] == '"');
    assert(t[i] == '"');
    lemma_sub_shift(t, i, whole, 1, whole.len() as int);
    assert(whole.subrange(1, whole.len() as int) =~= body + seq!['"']);
    assert(t.subrange(i + 1, i + 1 + body.len() + 1) == body + seq!['"']);
    lemma_str_body_inv(s, t, i + 1);
}

/// The first character a written value can start with: never a closing
/// bracket, a closing brace, a comma or a space.
proof fn lemma_se_json_first(v: JsonVal)
    ensures
        se_json(v).len() >= 1,
        se_json(v)[0] == 'n' || se_json(v)[0] == 't' || se_json(v)[0] == 'f' || se_json(v)[0]
            == '"' || se_json(v)[0] == '-' || is_digit(se_json(v)[0]) || se_json(v)[0] == '['
            || se_json(v)[0] == '{',
{
    match v {
        JsonVal::Int(n) => {
            if n >= 0 {
                lemma_spec_dec_digits(n as nat);
            } else {
                lemma_spec_dec_digits((-(n as int)) as nat);
            }
        },
        _ => {},
    }
}

/// Reading a written integer (with no digit directly behind it) yields
/// the integer back.
proof fn lemma_int_inv(n: i64, t: Seq<char>, i: int)
    requires
        starts_at(t, i, se_i64(n)),
        i + se_i64(n).len() == t.len() || !is_digit(t[i + se_i64(n).len()]),
    ensures
        sp_json(t, i) == Some((JsonVal::Int(n), i + se_i64(n).len() as int)),
{
    let whole = se_i64(n);
    lemma_prefix_char(t, i, whole, 0);
    if n >= 0 {
        let d = spec_dec(n as nat);
        lemma_spec_dec_digits(n as nat);
        assert(whole[0] == d[0]);
        assert(is_digit(t[i]));
        lemma_sub_shift(t, i, whole, 0, d.len() as int);
        assert(whole.subrange(0, d.len() as int) =~= d);
        lemma_parse_dec_inversion_u64(n as u64, t, i);
        assert(sp_parse_u64(t, i) == Some((n as u64, i + d.len() as int)));
        assert(!(t[i] == 'n' || t[i] == 't' || t[i] == 'f' || t[i] == '"' || t[i] == '-'));
    } else {
        let m = (-(n as int)) as nat;
        let d = spec_dec(m);
        lemma_spec_dec_digits(m);
        assert(whole[0] == '-');
        assert(t[i] == '-');
        lemma_sub_shift(t, i, whole, 1, whole.len() as int);
        assert(whole.subrange(1, whole.len() as int) =~= d);
        assert(t.subrange(i + 1, i + 1 + d.len() as int) == d);
        assert(m <= 0x8000_0000_0000_0000u64);
        lemma_parse_dec_inversion_u64(m as u64, t, i + 1);
        assert(sp_parse_u64(t, i + 1) == Some((m as u64, i + 1 + d.len() as int)));
        assert((-((m as u64) as int)) as i64 == n);
    }
}

/// Reading a written value (with no digit directly behind it) yields
/// the value back.
pub proof fn lemma_json_inv(v: JsonVal, t: Seq<char>, i: int)
    requires
        starts_at(t, i, se_json(v)),
        i + se_json(v).len() == t.len() || !is_digit(t[i + se_json(v).len()]),
    ensures
        sp_json(t, i) == Some((v, i + se_json(v).len() as int)),
    decreases v, 0int,
{
    let whole = se_json(v);
    match v {
        JsonVal::Null => {
            lemma_prefix_char(t, i, whole, 0);
            lemma_prefix_char(t, i, whole, 1);
            lemma_prefix_char(t, i, whole, 2);
            lemma_prefix_char(t, i, whole, 3);
            assert(t[i] == 'n' && t[i + 1] == 'u' && t[i + 2] == 'l' && t[i + 3] == 'l');
            assert(t.subrange(i, i + 4) =~= seq!['n', 'u', 'l', 'l']);
            assert(sp_json(t, i) == Some((v, i + se_json(v).len() as int)));
        },
        JsonVal::Bool(b) => {
            if b {
                lemma_prefix_char(t, i, whole, 0);
                assert(t[i] == 't');
                assert(t.subrange(i, i + 4) =~= seq!['t', 'r', 'u', 'e']) by {
                    lemma_sub_shift(t, i, whole, 0, 4);
                }
                assert(sp_json(t, i) == Some((v, i + se_json(v).len() as int)));
            } else {
                lemma_prefix_char(t, i, whole, 0);
                assert(t[i] == 'f');
                assert(t.subrange(i, i + 5) =~= seq!['f', 'a', 'l', 's', 'e']) by {
                    lemma_sub_shift(t, i, whole, 0, 5);
                }
                assert(sp_json(t, i) == Some((v, i + se_json(v).len() as int)));
            }
        },
        JsonVal::Int(n) => {
            lemma_int_inv(n, t, i);
            assert(sp_json(t, i) == Some((v, i + se_json(v).len() as int)));
        },
        JsonVal::Str(s) => {
            lemma_prefix_char(t, i, whole, 0);
            assert(t[i] == '"');
            lemma_string_inv(s, t, i);
            assert(sp_json(t, i) == Some((v, i + se_json(v).len() as int)));
        },
        JsonVal::Arr(items) => {
            lemma_prefix_char(t, i, whole, 0);
            assert(t[i] == '[');
            if items.len() == 0 {
                assert(whole =~= seq!['[', ']']);
                lemma_prefix_char(t, i, whole, 1);
                assert(t[i + 1] == ']');
                assert(items =~= Seq::<JsonVal>::empty());
            } else {
                let inner = se_arr_items(items);
                lemma_prefix_char(t, i, whole, 1);
                lemma_se_json_first(items[0]);
                assert(inner.len() >= 1 && inner[0] == se_json(items[0])[0]) by {
                    lemma_arr_first(items);
                }
                assert(whole[1] == inner[0]);
                assert(t[i + 1] == inner[0]);
                assert(t[i + 1] != ']');
                lemma_sub_shift(t, i, whole, 1, whole.len() as int);
                assert(whole.subrange(1, whole.len() as int) =~= inner + seq![']']);
                assert(t.subrange(i + 1, i + 1 + inner.len() + 1) == inner + seq![']']);
                lemma_arr_items_inv(items, t, i + 1);
            }
            assert(sp_json(t, i) == Some((v, i + se_json(v).len() as int)));
        },
        JsonVal::Obj(members) => {
            lemma_prefix_char(t, i, whole, 0);
            assert(t[i] == '{');
            if members.len() == 0 {
                assert(whole =~= seq!['{', '}']);
                lemma_prefix_char(t, i, whole, 1);
                assert(t[i + 1] == '}');
                assert(members =~= Seq::<(Seq<char>, JsonVal)>::empty());
            } else {
                let inner = se_obj_items(members);
                lemma_prefix_char(t, i, whole, 1);
                assert(inner.len() >= 1 && inner[0] == '"') by {
                    lemma_obj_first(members);
                }
                assert(whole[1] == inner[0]);
                assert(t[i + 1] == '"');
                assert(t[i + 1] != '}');
                lemma_sub_shift(t, i, whole, 1, whole.len() as int);
                assert(whole.subrange(1, whole.len() as int) =~= inner + seq!['}']);
                assert(t.subrange(i + 1, i + 1 + inner.len() + 1) == inner + seq!['}']);
                lemma_obj_items_inv(members, t, i + 1);
            }
            assert(sp_json(t, i) == Some((v, i + se_json(v).len() as int)));
        },
    }
}

/// A nonempty item list renders with the first item's text first.
proof fn lemma_arr_first(items: Seq<JsonVal>)
    requires
        items.len() >= 1,
    ensures
        se_arr_items(items).len() >= se_json(items[0]).len(),
        se_arr_items(items).len() >= 1,
        forall|k: int|
            0 <= k < se_json(items[0]).len() ==> se_arr_items(items)[k] == #[trigger] se_json(
                items[0],
            )[k],
{
    lemma_se_json_first(items[0]);
}

/// A nonempty member list renders with the first key's text first.
proof fn lemma_obj_first(members: Seq<(Seq<char>, JsonVal)>)
    requires
        members.len() >= 1,
    ensures
        se_obj_items(members).len() >= 1,
        se_obj_items(members)[0] == '"',
{
}

/// Reading written array items (with the closing bracket behind them)
/// yields the items back.
proof fn lemma_arr_items_inv(items: Seq<JsonVal>, t: Seq<char>, i: int)
    requires
        items.len() >= 1,
        0 <= i,
        i + se_arr_items(items).len() + 1 <= t.len(),
        t.subrange(i, i + se_arr_items(items).len() + 1) == se_arr_items(items) + seq![']'],
    ensures
        sp_arr_items(t, i) == Some((items, i + se_arr_items(items).len() + 1)),
    decreases items, 1int,
{
    let inner = se_arr_items(items);
    let whole = inner + seq![']'];
    let v = items[0];
    let sv = se_json(v);
    lemma_se_json_first(v);
    lemma_sub_shift(t, i, whole, 0, sv.len() as int);
    if items.len() == 1 {
        assert(inner == sv);
        assert(whole.subrange(0, sv.len() as int) =~= sv);
        assert(t.subrange(i, i + sv.len() as int) == sv);
        let j = i + sv.len() as int;
        lemma_prefix_char(t, i, whole, sv.len() as int);
        assert(whole[sv.len() as int] == ']');
        assert(t[j] == ']');
        lemma_json_inv(v, t, i);
        assert(seq![v] =~= items);
    } else {
        let rest = items.drop_first();
        let srest = se_arr_items(rest);
        assert(inner == sv + seq![',', ' '] + srest);
        assert(whole.subrange(0, sv.len() as int) =~= sv);
        assert(t.subrange(i, i + sv.len() as int) == sv);
        let j = i + sv.len() as int;
        lemma_prefix_char(t, i, whole, sv.len() as int);
        lemma_prefix_char(t, i, whole, sv.len() as int + 1);
        assert(whole[sv.len() as int] == ',');
        assert(whole[sv.len() as int + 1] == ' ');
        assert(t[j] == ',' && t[j + 1] == ' ');
        lemma_json_inv(v, t, i);
        lemma_sub_shift(t, i, whole, sv.len() as int + 2, whole.len() as int);
        assert(whole.subrange(sv.len() as int + 2, whole.len() as int) =~= srest + seq![']']);
        assert(t.subrange(j + 2, j + 2 + srest.len() + 1) == srest + seq![']']);
        lemma_arr_items_inv(rest, t, j + 2);
        assert(t[j] != ']');
        assert(seq![v] + rest =~= items);
    }
}

/// Reading written object members (with the closing brace behind them)
/// yields the members back.
proof fn lemma_obj_items_inv(members: Seq<(Seq<char>, JsonVal)>, t: Seq<char>, i: int)
    requires
        members.len() >= 1,
        0 <= i,
        i + se_obj_items(members).len() + 1 <= t.len(),
        t.subrange(i, i + se_obj_items(members).len() + 1) == se_obj_items(members) + seq!['}'],
    ensures
        sp_obj_items(t, i) == Some((members, i + se_obj_items(members).len() + 1)),
    decreases members, 1int,
{
    let inner = se_obj_items(members);
    let whole = inner + seq!['}'];
    let key = members[0].0;
    let v = members[0].1;
    let sk = se_string(key);
    let sv = se_json(v);
    let m = sk + seq![':', ' '] + sv;
    lemma_se_json_first(v);
    if members.len() == 1 {
        assert(inner == m);
    } else {
        assert(inner == m + seq![',', ' '] + se_obj_items(members.drop_first()));
    }
    lemma_sub_shift(t, i, whole, 0, sk.len() as int);
    assert(whole.subrange(0, sk.len() as int) =~= sk);
    assert(t.subrange(i, i + sk.len() as int) == sk);
    lemma_string_inv(key, t, i);
    let j0 = i + sk.len() as int;
    lemma_prefix_char(t, i, whole, sk.len() as int);
    lemma_prefix_char(t, i, whole, sk.len() as int + 1);
    assert(whole[sk.len() as int] == ':');
    assert(whole[sk.len() as int + 1] == ' ');
    assert(t[j0] == ':' && t[j0 + 1] == ' ');
    lemma_sub_shift(t, i, whole, sk.len() as int + 2, sk.len() as int + 2 + sv.len() as int);
    assert(whole.subrange(sk.len() as int + 2, sk.len() as int + 2 + sv.len() as int) =~= sv);
    assert(t.subrange(j0 + 2, j0 + 2 + sv.len() as int) == sv);
    let j = j0 + 2 + sv.len() as int;
    if members.len() == 1 {
        lemma_prefix_char(t, i, whole, m.len() as int);
        assert(whole[m.len() as int] == '}');
        assert(t[j] == '}');
        lemma_json_inv(v, t, j0 + 2);
        assert(seq![(key, v)] =~= members);
    } else {
        let rest = members.drop_first();
        let srest = se_obj_items(rest);
        lemma_prefix_char(t, i, whole, m.len() as int);
        lemma_prefix_char(t, i, whole, m.len() as int + 1);
        assert(whole[m.len() as int] == ',');
        assert(whole[m.len() as int + 1] == ' ');
        assert(t[j] == ',' && t[j + 1] == ' ');
        lemma_json_inv(v, t, j0 + 2);
        lemma_sub_shift(t, i, whole, m.len() as int + 2, whole.len() as int);
        assert(whole.subrange(m.len() as int + 2, whole.len() as int) =~= srest + seq!['}']);
        assert(t.subrange(j + 2, j + 2 + srest.len() + 1) == srest + seq!['}']);
        lemma_obj_items_inv(rest, t, j + 2);
        assert(t[j] != '}');
        assert(seq![(key, v)] + rest =~= members);
    }
}

/// Round trip of the text layer: reading the rendering of any value
/// yields the value back, consuming the whole text.
pub proof fn lemma_json_inversion(v: JsonVal)
    ensures
        sp_json(se_json(v), 0) == Some((v, se_json(v).len() as int)),
{
    let t = se_json(v);
    assert(t.subrange(0, t.len() as int) =~= t);
    lemma_json_inv(v, t, 0);
}

/// Escaping one more character extends the escaped body.
proof fn lemma_se_str_body_snoc(p: Seq<char>, c: char)
    ensures
        se_str_body(p.push(c)) == se_str_body(p) + esc_char(c),
    decreases p.len(),
{
    if p.len() == 0 {
        assert(p.push(c)[0] == c);
        assert(p.push(c).len() == 1);
        assert(p.push(c).drop_first() =~= Seq::<char>::empty());
        assert(se_str_body(p.push(c)) == esc_char(p.push(c)[0]) + se_str_body(
            p.push(c).drop_first(),
        ));
        assert(se_str_body(p.push(c).drop_first()) == Seq::<char>::empty());
        assert(se_str_body(p) == Seq::<char>::empty());
        assert(se_str_body(p.push(c)) =~= se_str_body(p) + esc_char(c));
    } else {
        assert(p.push(c)[0] == p[0]);
        assert(p.push(c).drop_first() =~= p.drop_first().push(c));
        lemma_se_str_body_snoc(p.drop_first(), c);
        assert(se_str_body(p.push(c)) == esc_char(p[0]) + se_str_body(p.drop_first().push(c)));
        assert(esc_char(p[0]) + (se_str_body(p.drop_first()) + esc_char(c)) =~= (esc_char(p[0])
            + se_str_body(p.drop_first())) + esc_char(c));
    }
}

/// Write one string in its rendered shape.
fn emit_string(s: &String, out: &mut String)
    ensures
        final(out)@ == old(out)@ + se_string(s@),
{
    push_char(out, '"');
    let slice = s.as_str();
    let n = slice.unicode_len();
    let mut i: usize = 0;
    while i < n
        invariant
            i <= n,
            n == s@.len(),
            slice@ == s@,
            out@ == old(out)@ + seq!['"'] + se_str_body(s@.subrange(0, i as int)),
        decreases n - i,
    {
        let c = slice.get_char(i);
        if c == '"' || c == '\\' {
            push_char(out, '\\');
            push_char(out, c);
        } else if (c as u32) < 32 {
            let code = c as u32;
            push_char(out, '\\');
            push_char(out, 'u');
            push_char(out, '0');
            push_char(out, '0');
            push_char(out, crate::color::hex_char(code / 16));
            push_char(out, crate::color::hex_char(code % 16));
        } else {
            push_char(out, c);
        }
        proof {
            assert(s@.subrange(0, i as int).push(s@[i as int]) =~= s@.subrange(0, i as int + 1));
            lemma_se_str_body_snoc(s@.subrange(0, i as int), s@[i as int]);
            assert(out@ =~= old(out)@ + seq!['"'] + se_str_body(s@.subrange(0, i as int + 1)));
        }
        i = i + 1;
    }
    push_char(out, '"');
    proof {
        assert(s@.subrange(0, n as int) =~= s@);
        assert(out@ =~= old(out)@ + se_string(s@));
    }
}

/// Write one integer in its rendered shape.
fn emit_i64(n: i64, out: &mut String)
    ensures
        final(out)@ == old(out)@ + se_i64(n),
{
    if n >= 0 {
        append_dec(out, n as u64);
        proof {
            assert((n as u64) as nat == n as nat);
        }
    } else {
        push_char(out, '-');
        let m: u64 = if n == i64::MIN {
            9223372036854775808u64
        } else {
            (-n) as u64
        };
        append_dec(out, m);
        proof {
            assert(m as nat == (-(n as int)) as nat);
            assert(out@ =~= old(out)@ + se_i64(n));
        }
    }
}

/// Write one value in its rendered shape.
fn emit_json(v: &JsonValue, out: &mut String)
    ensures
        final(out)@ == old(out)@ + se_json(v@),
    decreases v, 1int,
{
    match v {
        JsonValue::Null => {
            push_char(out, 'n');
            push_char(out, 'u');
            push_char(out, 'l');
            push_char(out, 'l');
            proof {
                assert(out@ =~= old(out)@ + se_json(v@));
            }
        },
        JsonValue::Bool(b) => {
            if *b {
                push_char(out, 't');
                push_char(out, 'r');
                push_char(out, 'u');
                push_char(out, 'e');
            } else {
                push_char(out, 'f');
                push_char(out, 'a');
                push_char(out, 'l');
                push_char(out, 's');
                push_char(out, 'e');
            }
            proof {
                assert(out@ =~= old(out)@ + se_json(v@));
            }
        },
        JsonValue::Int(n) => {
            emit_i64(*n, out);
        },
        JsonValue::Str(s) => {
            emit_string(s, out);
        },
        JsonValue::Arr(items) => {
            push_char(out, '[');
            if items.len() == 0 {
                proof {
                    assert(jv_seq_view(items@) =~= Seq::<JsonVal>::empty());
                }
            } else {
                emit_arr_items(items, 0, out);
                proof {
                    assert(jv_seq_view(items@).skip(0) =~= jv_seq_view(items@));
                }
            }
            push_char(out, ']');
            proof {
                assert(out@ =~= old(out)@ + se_json(v@));
            }
        },
        JsonValue::Obj(members) => {
            push_char(out, '{');
            if members.len() == 0 {
                proof {
                    assert(jm_seq_view(members@) =~= Seq::<(Seq<char>, JsonVal)>::empty());
                }
            } else {
                emit_obj_items(members, 0, out);
                proof {
                    assert(jm_seq_view(members@).skip(0) =~= jm_seq_view(members@));
                }
            }
            push_char(out, '}');
            proof {
                assert(out@ =~= old(out)@ + se_json(v@));
            }
        },
    }
}

/// Write the items from `idx` on, separated by `", "`.
fn emit_arr_items(items: &Vec<JsonValue>, idx: usize, out: &mut String)
    requires
        idx < items@.len(),
    ensures
        final(out)@ == old(out)@ + se_arr_items(jv_seq_view(items@).skip(idx as int)),
    decreases items@, items@.len() - idx, 2int,
{
    proof {
        lemma_jv_seq_view_index(items@, idx as int);
    }
    let ghost vs = jv_seq_view(items@).skip(idx as int);
    proof {
        lemma_jv_seq_view_len(items@);
        assert(vs[0] == jv_seq_view(items@)[idx as int]);
    }
    let n = items.len();
    emit_json(&items[idx], out);
    if idx + 1 < n {
        push_char(out, ',');
        push_char(out, ' ');
        emit_arr_items(items, idx + 1, out);
        proof {
            assert(vs.drop_first() =~= jv_seq_view(items@).skip(idx as int + 1));
            assert(se_arr_items(vs) == se_json(vs[0]) + seq![',', ' '] + se_arr_items(
                vs.drop_first(),
            ));
            assert(out@ =~= old(out)@ + se_arr_items(vs));
        }
    } else {
        proof {
            assert(vs.len() == 1);
            assert(out@ =~= old(out)@ + se_arr_items(vs));
        }
    }
}

/// Write the members from `idx` on, separated by `", "`.
fn emit_obj_items(members: &Vec<(String, JsonValue)>, idx: usize, out: &mut String)
    requires
        idx < members@.len(),
    ensures
        final(out)@ == old(out)@ + se_obj_items(jm_seq_view(members@).skip(idx as int)),
    decreases members@, members@.len() - idx, 2int,
{
    proof {
        lemma_jm_seq_view_index(members@, idx as int);
        lemma_jm_seq_view_len(members@);
    }
    let ghost ms = jm_seq_view(members@).skip(idx as int);
    proof {
        assert(ms[0] == jm_seq_view(members@)[idx as int]);
    }
    emit_string(&members[idx].0, out);
    push_char(out, ':');
    push_char(out, ' ');
    let n = members.len();
    emit_json(&members[idx].1, out);
    if idx + 1 < n {
        push_char(out, ',');
        push_char(out, ' ');
        emit_obj_items(members, idx + 1, out);
        proof {
            assert(ms.drop_first() =~= jm_seq_view(members@).skip(idx as int + 1));
            assert(out@ =~= old(out)@ + se_obj_items(ms));
        }
    } else {
        proof {
            assert(ms.len() == 1);
            assert(out@ =~= old(out)@ + se_obj_items(ms));
        }
    }
}

/// Render one value as JSON text.
pub fn write_json(v: &JsonValue) -> (r: String)
    ensures
        r@ == se_json(v@),
{
    let mut out = String::new();
    emit_json(v, &mut out);
    proof {
        assert(Seq::<char>::empty() + se_json(v@) =~= se_json(v@));
    }
    out
}

/// Read one string at `i`, following `sp_string` exactly.
fn parse_string_at(t: &Vec<char>, i: usize) -> (r: Option<(String, usize)>)
    requires
        i <= t@.len(),
    ensures
        match r {
            Some((s, j)) => sp_string(t@, i as int) == Some((s@, j as int)) && i < j <= t@.len(),
            None => sp_string(t@, i as int) is None,
        },
{
    let n = t.len();
    if i >= n {
        return None;
    }
    if t[i] != '"' {
        return None;
    }
    let mut acc = String::new();
    let mut cur: usize = i + 1;
    proof {
        let se = sp_str_body(t@, cur as int);
        if se is Some {
            let (s2, j) = se->0;
            assert(Seq::<char>::empty() + s2 =~= s2);
        }
    }
    loop
        invariant
            i + 1 <= cur <= n,
            n == t@.len(),
            t@[i as int] == '"',
            match sp_str_body(t@, cur as int) {
                Option::None => sp_str_body(t@, i as int + 1) is None,
                Option::Some((s2, j)) => sp_str_body(t@, i as int + 1) == Some((acc@ + s2, j)),
            },
        decreases n - cur,
    {
        if cur >= n {
            return None;
        }
        let c = t[cur];
        if c == '"' {
            proof {
                assert(sp_str_body(t@, cur as int) == Some(
                    (Seq::<char>::empty(), cur as int + 1),
                ));
                assert(acc@ + Seq::<char>::empty() =~= acc@);
            }
            return Some((acc, cur + 1));
        } else if c == '\\' {
            if cur + 1 >= n {
                return None;
            }
            if t[cur + 1] == 'u' {
                if !(n - cur > 5 && t[cur + 2] == '0' && t[cur + 3] == '0') {
                    return None;
                }
                let hv = match crate::color::hex_digit(t[cur + 4]) {
                    Some(d) => d,
                    None => {
                        return None;
                    },
                };
                let lv = match crate::color::hex_digit(t[cur + 5]) {
                    Some(d) => d,
                    None => {
                        return None;
                    },
                };
                let v = hv * 16 + lv;
                let ch = (v as u8) as char;
                proof {
                    assert(ch as u32 == v);
                    vstd::utf8::char_u32_cast(ch, v);
                    assert((v as char) == ch);
                }
                let ghost acc_pre = acc@;
                push_char(&mut acc, ch);
                proof {
                    let se = sp_str_body(t@, cur as int + 6);
                    if se is Some {
                        let (s2, j) = se->0;
                        assert(acc_pre + (seq![ch] + s2) =~= acc@ + s2);
                    }
                }
                cur = cur + 6;
            } else {
                let ghost acc_pre = acc@;
                push_char(&mut acc, t[cur + 1]);
                proof {
                    let se = sp_str_body(t@, cur as int + 2);
                    if se is Some {
                        let (s2, j) = se->0;
                        assert(acc_pre + (seq![t@[cur as int + 1]] + s2) =~= acc@ + s2);
                    }
                }
                cur = cur + 2;
            }
        } else {
            let ghost acc_pre = acc@;
            push_char(&mut acc, c);
            proof {
                let se = sp_str_body(t@, cur as int + 1);
                if se is Some {
                    let (s2, j) = se->0;
                    assert(acc_pre + (seq![t@[cur as int]] + s2) =~= acc@ + s2);
                }
            }
            cur = cur + 1;
        }
    }
}

/// Read one value at `i`, following `sp_json` exactly.
fn parse_json_at(t: &Vec<char>, i: usize) -> (r: Option<(JsonValue, usize)>)
    requires
        i <= t@.len(),
    ensures
        match r {
            Some((v, j)) => sp_json(t@, i as int) == Some((v@, j as int)) && i < j <= t@.len(),
            None => sp_json(t@, i as int) is None,
        },
    decreases t@.len() - i, 0int,
{
    let n = t.len();
    if i >= n {
        return None;
    }
    let c = t[i];
    if c == 'n' {
        let ok = n - i > 3 && t[i + 1] == 'u' && t[i + 2] == 'l' && t[i + 3] == 'l';
        if ok {
            proof {
                assert(t@.subrange(i as int, i as int + 4) =~= seq!['n', 'u', 'l', 'l']);
            }
            Some((JsonValue::Null, i + 4))
        } else {
            proof {
                if starts_at(t@, i as int, seq!['n', 'u', 'l', 'l']) {
                    lemma_prefix_char(t@, i as int, seq!['n', 'u', 'l', 'l'], 1);
                    lemma_prefix_char(t@, i as int, seq!['n', 'u', 'l', 'l'], 2);
                    lemma_prefix_char(t@, i as int, seq!['n', 'u', 'l', 'l'], 3);
                }
            }
            None
        }
    } else if c == 't' {
        let ok = n - i > 3 && t[i + 1] == 'r' && t[i + 2] == 'u' && t[i + 3] == 'e';
        if ok {
            proof {
                assert(t@.subrange(i as int, i as int + 4) =~= seq!['t', 'r', 'u', 'e']);
            }
            Some((JsonValue::Bool(true), i + 4))
        } else {
            proof {
                if starts_at(t@, i as int, seq!['t', 'r', 'u', 'e']) {
                    lemma_prefix_char(t@, i as int, seq!['t', 'r', 'u', 'e'], 1);
                    lemma_prefix_char(t@, i as int, seq!['t', 'r', 'u', 'e'], 2);
                    lemma_prefix_char(t@, i as int, seq!['t', 'r', 'u', 'e'], 3);
                }
            }
            None
        }
    } else if c == 'f' {
        let ok = n - i > 4 && t[i + 1] == 'a' && t[i + 2] == 'l' && t[i + 3] == 's' && t[i + 4]
            == 'e';
        if ok {
            proof {
                assert(t@.subrange(i as int, i as int + 5) =~= seq!['f', 'a', 'l', 's', 'e']);
            }
            Some((JsonValue::Bool(false), i + 5))
        } else {
            proof {
                if starts_at(t@, i as int, seq!['f', 'a', 'l', 's', 'e']) {
                    lemma_prefix_char(t@, i as int, seq!['f', 'a', 'l', 's', 'e'], 1);
                    lemma_prefix_char(t@, i as int, seq!['f', 'a', 'l', 's', 'e'], 2);
                    lemma_prefix_char(t@, i as int, seq!['f', 'a', 'l', 's', 'e'], 3);
                    lemma_prefix_char(t@, i as int, seq!['f', 'a', 'l', 's', 'e'], 4);
                }
            }
            None
        }
    } else if c == '"' {
        match parse_string_at(t, i) {
            Some((s, j)) => Some((JsonValue::Str(s), j)),
            None => None,
        }
    } else if c == '-' {
        match parse_u64(t, i + 1) {
            Some((v, j)) => {
                if v <= 0x8000_0000_0000_0000u64 {
                    let value: i64 = if v <= 0x7FFF_FFFF_FFFF_FFFFu64 {
                        -(v as i64)
                    } else {
                        i64::MIN
                    };
                    proof {
                        assert(value == (-(v as int)) as i64);
                    }
                    Some((JsonValue::Int(value), j))
                } else {
                    None
                }
            },
            None => None,
        }
    } else if '0' <= c && c <= '9' {
        proof {
            assert(is_digit(t@[i as int]));
        }
        match parse_u64(t, i) {
            Some((v, j)) => {
                if v <= 0x7FFF_FFFF_FFFF_FFFFu64 {
                    Some((JsonValue::Int(v as i64), j))
                } else {
                    None
                }
            },
            None => None,
        }
    } else if c == '[' {
        if i + 1 < n && t[i + 1] == ']' {
            let empty: Vec<JsonValue> = Vec::new();
            proof {
                assert(jv_seq_view(empty@) =~= Seq::<JsonVal>::empty());
            }
            Some((JsonValue::Arr(empty), i + 2))
        } else {
            match parse_arr_items(t, i + 1) {
                Some((items, j)) => Some((JsonValue::Arr(items), j)),
                None => None,
            }
        }
    } else if c == '{' {
        if i + 1 < n && t[i + 1] == '}' {
            let empty: Vec<(String, JsonValue)> = Vec::new();
            proof {
                assert(jm_seq_view(empty@) =~= Seq::<(Seq<char>, JsonVal)>::empty());
            }
            Some((JsonValue::Obj(empty), i + 2))
        } else {
            match parse_obj_items(t, i + 1) {
                Some((members, j)) => Some((JsonValue::Obj(members), j)),
                None => None,
            }
        }
    } else {
        None
    }
}

/// Read one or more array items at `i` and the closing bracket,
/// following `sp_arr_items` exactly.
fn parse_arr_items(t: &Vec<char>, i: usize) -> (r: Option<(Vec<JsonValue>, usize)>)
    requires
        i <= t@.len(),
    ensures
        match r {
            Some((items, j)) => sp_arr_items(t@, i as int) == Some(
                (jv_seq_view(items@), j as int),
            ) && i < j <= t@.len(),
            None => sp_arr_items(t@, i as int) is None,
        },
    decreases t@.len() - i, 1int,
{
    let n = t.len();
    let (v, j) = match parse_json_at(t, i) {
        Some(p) => p,
        None => {
            return None;
        },
    };
    if j < n && t[j] == ']' {
        let mut items: Vec<JsonValue> = Vec::new();
        items.push(v);
        proof {
            assert(items@.drop_first() =~= Seq::<JsonValue>::empty());
            assert(jv_seq_view(items@.drop_first()) == Seq::<JsonVal>::empty());
            assert(jv_seq_view(items@) == seq![jv_view(items@[0])] + jv_seq_view(
                items@.drop_first(),
            ));
            assert(items@[0] == v);
            assert(jv_seq_view(items@) =~= seq![jv_view(v)]);
        }
        return Some((items, j + 1));
    }
    if j < n && t[j] == ',' && j + 1 < n && t[j + 1] == ' ' {
        match parse_arr_items(t, j + 2) {
            Some((mut rest, k)) => {
                let ghost rest_pre = rest@;
                rest.insert(0, v);
                proof {
                    assert(rest@ =~= seq![v] + rest_pre);
                    assert(rest@[0] == v);
                    assert(rest@.drop_first() =~= rest_pre);
                    assert(jv_seq_view(rest@) == seq![jv_view(rest@[0])] + jv_seq_view(
                        rest@.drop_first(),
                    ));
                    assert(jv_seq_view(rest@) =~= seq![jv_view(v)] + jv_seq_view(rest_pre));
                }
                Some((rest, k))
            },
            None => None,
        }
    } else {
        None
    }
}

/// Read one or more object members at `i` and the closing brace,
/// following `sp_obj_items` exactly.
fn parse_obj_items(t: &Vec<char>, i: usize) -> (r: Option<(Vec<(String, JsonValue)>, usize)>)
    requires
        i <= t@.len(),
    ensures
        match r {
            Some((members, j)) => sp_obj_items(t@, i as int) == Some(
                (jm_seq_view(members@), j as int),
            ) && i < j <= t@.len(),
            None => sp_obj_items(t@, i as int) is None,
        },
    decreases t@.len() - i, 1int,
{
    let n = t.len();
    let (key, j0) = match parse_string_at(t, i) {
        Some(p) => p,
        None => {
            return None;
        },
    };
    if !(j0 < n && t[j0] == ':' && j0 + 1 < n && t[j0 + 1] == ' ') {
        return None;
    }
    let (v, j) = match parse_json_at(t, j0 + 2) {
        Some(p) => p,
        None => {
            return None;
        },
    };
    if j < n && t[j] == '}' {
        let mut members: Vec<(String, JsonValue)> = Vec::new();
        members.push((key, v));
        proof {
            assert(members@.drop_first() =~= Seq::<(String, JsonValue)>::empty());
            assert(jm_seq_view(members@.drop_first()) == Seq::<(Seq<char>, JsonVal)>::empty());
            assert(jm_seq_view(members@) == seq![(members@[0].0@, jv_view(members@[0].1))]
                + jm_seq_view(members@.drop_first()));
            assert(jm_seq_view(members@) =~= seq![(members@[0].0@, jv_view(members@[0].1))]);
        }
        return Some((members, j + 1));
    }
    if j < n && t[j] == ',' && j + 1 < n && t[j + 1] == ' ' {
        match parse_obj_items(t, j + 2) {
            Some((mut rest, k)) => {
                let ghost rest_pre = rest@;
                let ghost kv = (key@, jv_view(v));
                rest.insert(0, (key, v));
                proof {
                    assert(rest@.drop_first() =~= rest_pre);
                    assert(rest@[0].0 == key && rest@[0].1 == v);
                    assert(jm_seq_view(rest@) == seq![(rest@[0].0@, jv_view(rest@[0].1))]
                        + jm_seq_view(rest@.drop_first()));
                    assert(jm_seq_view(rest@) =~= seq![kv] + jm_seq_view(rest_pre));
                }
                Some((rest, k))
            },
            None => None,
        }
    } else {
        None
    }
}

/// The value of a whole JSON text: one value and nothing after it.
pub open spec fn sp_json_text(t: Seq<char>) -> Option<JsonVal> {
    match sp_json(t, 0) {
        Some((v, j)) => if j == t.len() {
            Some(v)
        } else {
            None
        },
        None => None,
    }
}

/// Read a whole JSON text: one value, with nothing after it.
pub fn read_json_text(s: &str) -> (r: Option<JsonValue>)
    ensures
        match r {
            Some(v) => sp_json_text(s@) == Some(v@),
            None => sp_json_text(s@) is None,
        },
{
    let chars = crate::strutil::str_to_chars(s);
    match parse_json_at(&chars, 0) {
        Some((v, j)) => {
            if j == chars.len() {
                Some(v)
            } else {
                None
            }
        },
        None => None,
    }
}

/// Pushing a value pushes its view.
pub proof fn lemma_jv_seq_view_push(s: Seq<JsonValue>, v: JsonValue)
    ensures
        jv_seq_view(s.push(v)) == jv_seq_view(s).push(jv_view(v)),
{
    lemma_jv_seq_view_len(s);
    lemma_jv_seq_view_len(s.push(v));
    assert forall|i: int| 0 <= i < s.len() + 1 implies jv_seq_view(s.push(v))[i] == jv_seq_view(
        s,
    ).push(jv_view(v))[i] by {
        lemma_jv_seq_view_index(s.push(v), i);
        if i < s.len() {
            lemma_jv_seq_view_index(s, i);
            assert(s.push(v)[i] == s[i]);
        } else {
            assert(s.push(v)[i] == v);
        }
    }
    assert(jv_seq_view(s.push(v)) =~= jv_seq_view(s).push(jv_view(v)));
}

/// Pushing a member pushes its view.
pub proof fn lemma_jm_seq_view_push(s: Seq<(String, JsonValue)>, m: (String, JsonValue))
    ensures
        jm_seq_view(s.push(m)) == jm_seq_view(s).push((m.0@, jv_view(m.1))),
{
    lemma_jm_seq_view_len(s);
    lemma_jm_seq_view_len(s.push(m));
    assert forall|i: int| 0 <= i < s.len() + 1 implies jm_seq_view(s.push(m))[i] == jm_seq_view(
        s,
    ).push((m.0@, jv_view(m.1)))[i] by {
        lemma_jm_seq_view_index(s.push(m), i);
        if i < s.len() {
            lemma_jm_seq_view_index(s, i);
            assert(s.push(m)[i] == s[i]);
        } else {
            assert(s.push(m)[i] == m);
        }
    }
    assert(jm_seq_view(s.push(m)) =~= jm_seq_view(s).push((m.0@, jv_view(m.1))));
}

} // verus!
