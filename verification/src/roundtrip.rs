//! The codec laws: parsing inverts serialization, and decoding a message
//! built from encoded frames yields exactly the frames' payloads, in order.

use vstd::prelude::*;
use crate::json::{JVal, spec_ser, spec_ser_arr, spec_ser_obj, spec_ser_member,
    spec_ser_string, spec_ser_str_body, spec_esc_char, spec_hex_char,
    is_json_digit, spec_digit_val, sp_hex_val, is_scalar_code,
    lemma_spec_char_of, sp_unescape, sp_string_body, sp_digit_run_end, sp_digits_val,
    sp_number, sp_value, sp_elems, sp_members, sp_parse_text, pow10,
    lemma_run_end, wf_jval, lemma_wf_jvals, lemma_wf_jkvs};
use crate::codec::{FRAME_DELIMITER, spec_is_ws, first_delim, lemma_first_delim_at,
    spec_split, trim_front, trim_back, spec_trim, spec_parse_pieces, spec_decode,
    spec_encode_frame};
use crate::text::spec_dec_digits;
use crate::text::spec_digit_char;

verus! {

/// `x` stands letter for letter inside `t` at position `i`.
pub open spec fn occurs_at(t: Seq<char>, i: int, x: Seq<char>) -> bool {
    0 <= i && i + x.len() <= t.len() && forall|k: int|
        0 <= k < x.len() ==> #[trigger] x[k] == t[i + k]
}

/// A pasted text occurs exactly when its two halves occur back to back.
pub proof fn lemma_occurs_concat(t: Seq<char>, i: int, x: Seq<char>, y: Seq<char>)
    requires
        occurs_at(t, i, x + y),
    ensures
        occurs_at(t, i, x),
        occurs_at(t, i + x.len(), y),
{
    assert forall|k: int| 0 <= k < x.len() implies #[trigger] x[k] == t[i + k] by {
        assert((x + y)[k] == x[k]);
    }
    assert forall|k: int| 0 <= k < y.len() implies #[trigger] y[k] == t[i + x.len() + k] by {
        assert((x + y)[x.len() + k] == y[k]);
    }
}

/// Whether a character may continue a number: the parser must not read past
/// a serialized number into one of these.
pub open spec fn is_num_cont(c: char) -> bool {
    is_json_digit(c) || c == '.' || c == 'e' || c == 'E'
}

// ------------------------------------------------------------------
// Facts about the serializer's text.
// ------------------------------------------------------------------

/// Decimal renderings are non-empty and hold digits only.
pub proof fn lemma_dec_digits_shape(n: nat)
    ensures
        spec_dec_digits(n).len() >= 1,
        forall|k: int| 0 <= k < spec_dec_digits(n).len() ==>
            is_json_digit(#[trigger] spec_dec_digits(n)[k]),
        spec_digit_val(spec_dec_digits(n)[spec_dec_digits(n).len() - 1]) == n % 10,
        n < 10 ==> spec_dec_digits(n).len() == 1,
    decreases n,
{
    if n < 10 {
        assert(spec_digit_val(spec_digit_char(n)) == n);
    } else {
        lemma_dec_digits_shape(n / 10);
        let pre = spec_dec_digits(n / 10);
        let whole = spec_dec_digits(n);
        assert(whole == pre + seq![spec_digit_char(n % 10)]);
        assert forall|k: int| 0 <= k < whole.len() implies is_json_digit(#[trigger] whole[k]) by {
            if k < pre.len() {
                assert(whole[k] == pre[k]);
            } else {
                assert(whole[k] == spec_digit_char(n % 10));
                assert(spec_digit_val(spec_digit_char(n % 10)) == n % 10);
            }
        }
        assert(spec_digit_val(spec_digit_char(n % 10)) == n % 10);
    }
}

/// A decimal rendering starts with a zero only for the value zero.
pub proof fn lemma_dec_digits_leading(n: nat)
    ensures
        spec_dec_digits(n)[0] == '0' ==> n == 0,
    decreases n,
{
    if n < 10 {
        if spec_dec_digits(n)[0] == '0' {
            assert(spec_digit_char(n) == '0');
            if n != 0 {
                assert(spec_digit_val(spec_digit_char(n)) == n);
                assert(spec_digit_val('0') == 0);
            }
        }
    } else {
        lemma_dec_digits_leading(n / 10);
        let pre = spec_dec_digits(n / 10);
        lemma_dec_digits_shape(n / 10);
        assert(spec_dec_digits(n)[0] == pre[0]);
        if spec_dec_digits(n)[0] == '0' {
            assert(n / 10 == 0);
        }
    }
}

/// A value below ten to the `k` renders in at most `k` digits.
pub proof fn lemma_dec_digits_len(n: nat, k: nat)
    requires
        k >= 1,
        n < pow10(k),
    ensures
        spec_dec_digits(n).len() <= k,
    decreases k,
{
    if n < 10 {
    } else {
        assert(pow10(k) == 10 * pow10((k - 1) as nat));
        if k == 1 {
            assert(pow10(1nat) == 10) by {
                reveal_with_fuel(pow10, 2);
            }
        } else {
            lemma_dec_digits_len(n / 10, (k - 1) as nat);
        }
    }
}

/// The digits the serializer wrote carry the value back.
pub proof fn lemma_digits_val_of(t: Seq<char>, p: int, n: nat)
    requires
        occurs_at(t, p, spec_dec_digits(n)),
    ensures
        sp_digits_val(t, p as nat, (p + spec_dec_digits(n).len()) as nat) == n,
    decreases n,
{
    let d = spec_dec_digits(n);
    lemma_dec_digits_shape(n);
    if n < 10 {
        assert(t[p] == d[0]);
        assert(sp_digits_val(t, p as nat, (p + 1) as nat)
            == sp_digits_val(t, p as nat, p as nat) * 10 + spec_digit_val(t[p]));
        assert(spec_digit_val(spec_digit_char(n)) == n);
    } else {
        let pre = spec_dec_digits(n / 10);
        assert(d == pre + seq![spec_digit_char(n % 10)]);
        lemma_occurs_concat(t, p, pre, seq![spec_digit_char(n % 10)]);
        assert(t[p + pre.len()] == spec_digit_char(n % 10));
        lemma_digits_val_of(t, p, n / 10);
        assert(sp_digits_val(t, p as nat, (p + d.len()) as nat)
            == sp_digits_val(t, p as nat, (p + pre.len()) as nat) * 10
                + spec_digit_val(t[p + pre.len()]));
        assert(spec_digit_val(spec_digit_char(n % 10)) == n % 10);
    }
}

/// Parsing the digits the serializer wrote stops exactly past them and
/// yields the value back.
pub proof fn lemma_parse_dec_digits(t: Seq<char>, p: int, n: nat)
    requires
        occurs_at(t, p, spec_dec_digits(n)),
        p + spec_dec_digits(n).len() == t.len()
            || !is_json_digit(t[p + spec_dec_digits(n).len()]),
    ensures
        sp_digit_run_end(t, p as nat) == p + spec_dec_digits(n).len(),
        sp_digits_val(t, p as nat, (p + spec_dec_digits(n).len()) as nat) == n,
{
    let d = spec_dec_digits(n);
    lemma_dec_digits_shape(n);
    assert forall|k: int| p <= k < p + d.len() implies is_json_digit(#[trigger] t[k]) by {
        assert(d[k - p] == t[k]);
    }
    lemma_run_end(t, p as nat, (p + d.len()) as nat);
    lemma_digits_val_of(t, p, n);
}

/// The first character a serialized value can start with; none of them is
/// whitespace, a digit continuation hazard for a neighbour, a closing
/// bracket, or the frame delimiter.
pub proof fn lemma_ser_first(j: JVal)
    requires
        wf_jval(j),
    ensures
        spec_ser(j).len() >= 1,
        ({
            let c = spec_ser(j)[0];
            c == 'n' || c == 't' || c == 'f' || c == '"' || c == '-' || is_json_digit(c)
                || c == '[' || c == '{'
        }),
{
    match j {
        JVal::Int(n) => {
            if n < 0 {
                lemma_dec_digits_shape((-n) as nat);
            } else {
                lemma_dec_digits_shape(n as nat);
                assert(spec_ser(j)[0] == spec_dec_digits(n as nat)[0]);
            }
        },
        _ => {},
    }
}

/// The last character of a serialized value is never whitespace.
pub proof fn lemma_ser_last(j: JVal)
    requires
        wf_jval(j),
    ensures
        spec_ser(j).len() >= 1,
        !spec_is_ws(spec_ser(j)[spec_ser(j).len() - 1]),
        spec_ser(j)[spec_ser(j).len() - 1] != FRAME_DELIMITER,
{
    match j {
        JVal::Int(n) => {
            let m: nat = if n < 0 { (-n) as nat } else { n as nat };
            lemma_dec_digits_shape(m);
            let d = spec_dec_digits(m);
            assert(spec_ser(j)[spec_ser(j).len() - 1] == d[d.len() - 1]);
            assert(is_json_digit(d[d.len() - 1]));
        },
        _ => {},
    }
}

/// No character of a string-literal body is the frame delimiter, and none
/// is an unescaped control character.
proof fn lemma_ser_str_body_no_delim(s: Seq<char>)
    ensures
        forall|k: int| 0 <= k < spec_ser_str_body(s).len() ==>
            #[trigger] spec_ser_str_body(s)[k] != FRAME_DELIMITER,
    decreases s.len(),
{
    if s.len() > 0 {
        lemma_ser_str_body_no_delim(s.drop_first());
        let e = spec_esc_char(s[0]);
        let rest = spec_ser_str_body(s.drop_first());
        assert(spec_ser_str_body(s) == e + rest);
        assert forall|k: int| 0 <= k < spec_ser_str_body(s).len() implies
            #[trigger] spec_ser_str_body(s)[k] != FRAME_DELIMITER by {
            if k < e.len() {
                assert(spec_ser_str_body(s)[k] == e[k]);
                assert(e[k] != FRAME_DELIMITER);
            } else {
                assert(spec_ser_str_body(s)[k] == rest[k - e.len()]);
            }
        }
    }
}

/// The serializer never writes the frame delimiter into a law-covered
/// value's text: control characters in strings are escaped, and no
/// structural character is the delimiter.
pub proof fn lemma_ser_no_delim(j: JVal)
    requires
        wf_jval(j),
    ensures
        forall|k: int| 0 <= k < spec_ser(j).len() ==>
            #[trigger] spec_ser(j)[k] != FRAME_DELIMITER,
    decreases j, 0nat, 0nat,
{
    let s = spec_ser(j);
    match j {
        JVal::Null => {},
        JVal::Bool(b) => {},
        JVal::Num(t) => {
            // Kept number texts are outside the laws: not well-formed.
            assert(false);
        },
        JVal::Int(n) => {
            let m: nat = if n < 0 { (-n) as nat } else { n as nat };
            lemma_dec_digits_shape(m);
            assert forall|k: int| 0 <= k < s.len() implies #[trigger] s[k] != FRAME_DELIMITER by {
                if n < 0 {
                    if k > 0 {
                        assert(s[k] == spec_dec_digits(m)[k - 1]);
                        assert(is_json_digit(spec_dec_digits(m)[k - 1]));
                    }
                } else {
                    assert(s[k] == spec_dec_digits(m)[k]);
                    assert(is_json_digit(spec_dec_digits(m)[k]));
                }
            }
        },
        JVal::Str(text) => {
            lemma_ser_str_body_no_delim(text);
            let body = spec_ser_str_body(text);
            assert forall|k: int| 0 <= k < s.len() implies #[trigger] s[k] != FRAME_DELIMITER by {
                if 0 < k <= body.len() {
                    assert(s[k] == body[k - 1]);
                }
            }
        },
        JVal::Arr(a) => {
            lemma_wf_jvals(a, 0);
            lemma_ser_arr_no_delim(a, 0);
            let inner = spec_ser_arr(a, 0);
            assert forall|k: int| 0 <= k < s.len() implies #[trigger] s[k] != FRAME_DELIMITER by {
                if 0 < k <= inner.len() {
                    assert(s[k] == inner[k - 1]);
                }
            }
        },
        JVal::Obj(o) => {
            lemma_wf_jkvs(o, 0);
            lemma_ser_obj_no_delim(o, 0);
            let inner = spec_ser_obj(o, 0);
            assert forall|k: int| 0 <= k < s.len() implies #[trigger] s[k] != FRAME_DELIMITER by {
                if 0 < k <= inner.len() {
                    assert(s[k] == inner[k - 1]);
                }
            }
        },
    }
}

proof fn lemma_ser_arr_no_delim(a: Seq<JVal>, i: int)
    requires
        forall|q: int| 0 <= q < a.len() ==> wf_jval(#[trigger] a[q]),
    ensures
        forall|k: int| 0 <= k < spec_ser_arr(a, i).len() ==>
            #[trigger] spec_ser_arr(a, i)[k] != FRAME_DELIMITER,
    decreases a, 1nat, a.len() - i,
{
    if 0 <= i < a.len() {
        assert(decreases_to!(a => a[i]));
        lemma_ser_no_delim(a[i]);
        let first = spec_ser(a[i]);
        if i == a.len() - 1 {
        } else {
            lemma_ser_arr_no_delim(a, i + 1);
            let rest = spec_ser_arr(a, i + 1);
            let s = spec_ser_arr(a, i);
            assert(s == first + seq![','] + rest);
            assert forall|k: int| 0 <= k < s.len() implies #[trigger] s[k] != FRAME_DELIMITER by {
                if k < first.len() {
                    assert(s[k] == first[k]);
                } else if k == first.len() {
                    assert(s[k] == ',');
                } else {
                    assert(s[k] == rest[k - first.len() - 1]);
                }
            }
        }
    }
}

proof fn lemma_ser_obj_no_delim(o: Seq<(Seq<char>, JVal)>, i: int)
    requires
        forall|q: int| 0 <= q < o.len() ==> wf_jval(#[trigger] o[q].1),
    ensures
        forall|k: int| 0 <= k < spec_ser_obj(o, i).len() ==>
            #[trigger] spec_ser_obj(o, i)[k] != FRAME_DELIMITER,
    decreases o, 2nat, o.len() - i,
{
    if 0 <= i < o.len() {
        assert(decreases_to!(o => o[i]));
        lemma_ser_member_no_delim(o[i]);
        let first = spec_ser_member(o[i]);
        if i == o.len() - 1 {
        } else {
            lemma_ser_obj_no_delim(o, i + 1);
            let rest = spec_ser_obj(o, i + 1);
            let s = spec_ser_obj(o, i);
            assert(s == first + seq![','] + rest);
            assert forall|k: int| 0 <= k < s.len() implies #[trigger] s[k] != FRAME_DELIMITER by {
                if k < first.len() {
                    assert(s[k] == first[k]);
                } else if k == first.len() {
                    assert(s[k] == ',');
                } else {
                    assert(s[k] == rest[k - first.len() - 1]);
                }
            }
        }
    }
}

proof fn lemma_ser_member_no_delim(m: (Seq<char>, JVal))
    requires
        wf_jval(m.1),
    ensures
        forall|k: int| 0 <= k < spec_ser_member(m).len() ==>
            #[trigger] spec_ser_member(m)[k] != FRAME_DELIMITER,
    decreases m, 1nat, 0nat,
{
    lemma_ser_str_body_no_delim(m.0);
    lemma_ser_no_delim(m.1);
    let keytext = spec_ser_string(m.0);
    let body = spec_ser_str_body(m.0);
    let valtext = spec_ser(m.1);
    let s = spec_ser_member(m);
    assert(s == keytext + seq![':'] + valtext);
    assert forall|k: int| 0 <= k < s.len() implies #[trigger] s[k] != FRAME_DELIMITER by {
        if k < keytext.len() {
            assert(s[k] == keytext[k]);
            if 0 < k <= body.len() {
                assert(keytext[k] == body[k - 1]);
            }
        } else if k == keytext.len() {
            assert(s[k] == ':');
        } else {
            assert(s[k] == valtext[k - keytext.len() - 1]);
        }
    }
}


// ------------------------------------------------------------------
// Parsing inverts serialization.
// ------------------------------------------------------------------

proof fn lemma_hex_char_val(d: nat)
    requires
        d < 16,
    ensures
        sp_hex_val(spec_hex_char(d)) == Some(d as u32),
{
}

/// Parsing a serialized string-literal body recovers the string.
pub proof fn lemma_parse_ser_string(s: Seq<char>, t: Seq<char>, p: int)
    requires
        occurs_at(t, p, spec_ser_str_body(s) + seq!['"']),
    ensures
        sp_string_body(t, p as nat) == Some((s, (p + spec_ser_str_body(s).len() + 1) as nat)),
    decreases s.len(),
{
    let body = spec_ser_str_body(s);
    if s.len() == 0 {
        assert((body + seq!['"'])[0] == '"');
        assert(t[p] == '"');
        assert(s =~= Seq::<char>::empty());
    } else {
        let c0 = s[0];
        let e = spec_esc_char(c0);
        let rest = spec_ser_str_body(s.drop_first());
        assert(body == e + rest);
        assert(body + seq!['"'] =~= e + (rest + seq!['"']));
        lemma_occurs_concat(t, p, e, rest + seq!['"']);
        lemma_parse_ser_string(s.drop_first(), t, p + e.len());
        assert(seq![c0] + s.drop_first() =~= s);
        if c0 == '"' {
            assert(e[0] == '\\');
            assert(e[1] == '"');
            assert(t[p] == '\\');
            assert(t[p + 1] == '"');
            assert(sp_unescape('"') == Some('"'));
        } else if c0 == '\\' {
            assert(e[0] == '\\');
            assert(e[1] == '\\');
            assert(t[p] == '\\');
            assert(t[p + 1] == '\\');
            assert(sp_unescape('\\') == Some('\\'));
        } else if (c0 as u32) < 0x20 {
            assert(e[0] == '\\');
            assert(e[1] == 'u');
            assert(e[2] == '0');
            assert(e[3] == '0');
            assert(e[4] == spec_hex_char((((c0 as u32) / 16) as nat)));
            assert(e[5] == spec_hex_char((((c0 as u32) % 16) as nat)));
            assert(t[p] == '\\');
            assert(t[p + 1] == 'u');
            assert(t[p + 2] == '0');
            assert(t[p + 3] == '0');
            assert(t[p + 4] == spec_hex_char((((c0 as u32) / 16) as nat)));
            assert(t[p + 5] == spec_hex_char((((c0 as u32) % 16) as nat)));
            lemma_hex_char_val(0);
            lemma_hex_char_val((((c0 as u32) / 16) as nat));
            lemma_hex_char_val((((c0 as u32) % 16) as nat));
            let n: u32 = (0 * 4096 + 0 * 256 + ((c0 as u32) / 16) * 16 + (c0 as u32) % 16) as u32;
            assert(n == c0 as u32);
            assert(is_scalar_code(n));
            lemma_spec_char_of(n, c0);
        } else {
            assert(e == seq![c0]);
            assert(e[0] == c0);
            assert(t[p] == c0);
        }
    }
}

/// Parsing a serialized value recovers the value, consuming exactly its
/// text. The character after it, if any, must not be able to continue a
/// number; inside arrays and objects a comma or a closing bracket follows,
/// and at the top of a frame nothing follows.
pub proof fn lemma_parse_ser(j: JVal, t: Seq<char>, i: int)
    requires
        wf_jval(j),
        occurs_at(t, i, spec_ser(j)),
        i + spec_ser(j).len() == t.len() || !is_num_cont(t[i + spec_ser(j).len()]),
    ensures
        sp_value(t, i as nat) == Some((j, (i + spec_ser(j).len()) as nat)),
    decreases j, 0nat, 0nat,
{
    let s = spec_ser(j);
    match j {
        JVal::Null => {
            assert(s[0] == 'n');
            assert(s[1] == 'u');
            assert(s[2] == 'l');
            assert(s[3] == 'l');
            assert(t[i] == 'n');
            assert(t[i + 1] == 'u');
            assert(t[i + 2] == 'l');
            assert(t[i + 3] == 'l');
        },
        JVal::Bool(b) => {
            if b {
                assert(s[0] == 't');
                assert(s[1] == 'r');
                assert(s[2] == 'u');
                assert(s[3] == 'e');
                assert(t[i] == 't');
                assert(t[i + 1] == 'r');
                assert(t[i + 2] == 'u');
                assert(t[i + 3] == 'e');
            } else {
                assert(s[0] == 'f');
                assert(s[1] == 'a');
                assert(s[2] == 'l');
                assert(s[3] == 's');
                assert(s[4] == 'e');
                assert(t[i] == 'f');
                assert(t[i + 1] == 'a');
                assert(t[i + 2] == 'l');
                assert(t[i + 3] == 's');
                assert(t[i + 4] == 'e');
            }
        },
        JVal::Int(n) => {
            lemma_parse_ser_int(j, t, i);
        },
        JVal::Num(text) => {
            assert(false);
        },
        JVal::Str(text) => {
            let body = spec_ser_str_body(text);
            assert(s == seq!['"'] + body + seq!['"']);
            assert(s =~= seq!['"'] + (body + seq!['"']));
            lemma_occurs_concat(t, i, seq!['"'], body + seq!['"']);
            assert(seq!['"'][0] == '"');
            assert(t[i] == '"');
            lemma_parse_ser_string(text, t, i + 1);
        },
        JVal::Arr(a) => {
            lemma_wf_jvals(a, 0);
            if a.len() == 0 {
                assert(spec_ser_arr(a, 0) == Seq::<char>::empty());
                assert(s =~= seq!['[', ']']);
                assert(s[0] == '[');
                assert(s[1] == ']');
                assert(t[i] == '[');
                assert(t[i + 1] == ']');
                assert(a =~= Seq::<JVal>::empty());
            } else {
                let inner = spec_ser_arr(a, 0);
                assert(s == seq!['['] + inner + seq![']']);
                assert(s =~= seq!['['] + (inner + seq![']']));
                lemma_occurs_concat(t, i, seq!['['], inner + seq![']']);
                assert(seq!['['][0] == '[');
                assert(t[i] == '[');
                assert(decreases_to!(a => a[0]));
                lemma_ser_first(a[0]);
                assert(inner[0] == spec_ser(a[0])[0]);
                assert((inner + seq![']'])[0] == inner[0]);
                assert(t[i + 1] == inner[0]);
                assert(t[i + 1] != ']');
                assert(decreases_to!(j => a));
                lemma_parse_ser_elems(a, t, i + 1, 0);
                assert(a.skip(0) =~= a);
            }
        },
        JVal::Obj(o) => {
            lemma_wf_jkvs(o, 0);
            if o.len() == 0 {
                assert(spec_ser_obj(o, 0) == Seq::<char>::empty());
                assert(s =~= seq!['{', '}']);
                assert(s[0] == '{');
                assert(s[1] == '}');
                assert(t[i] == '{');
                assert(t[i + 1] == '}');
                assert(o =~= Seq::<(Seq<char>, JVal)>::empty());
            } else {
                let inner = spec_ser_obj(o, 0);
                assert(s == seq!['{'] + inner + seq!['}']);
                assert(s =~= seq!['{'] + (inner + seq!['}']));
                lemma_occurs_concat(t, i, seq!['{'], inner + seq!['}']);
                assert(seq!['{'][0] == '{');
                assert(t[i] == '{');
                assert(decreases_to!(o => o[0]));
                assert(inner[0] == spec_ser_member(o[0])[0]);
                assert(spec_ser_member(o[0])[0] == '"');
                assert((inner + seq!['}'])[0] == inner[0]);
                assert(t[i + 1] == '"');
                assert(t[i + 1] != '}');
                assert(decreases_to!(j => o));
                lemma_parse_ser_members(o, t, i + 1, 0);
                assert(o.skip(0) =~= o);
            }
        },
    }
}

/// The integer case of `lemma_parse_ser`.
proof fn lemma_parse_ser_int(j: JVal, t: Seq<char>, i: int)
    requires
        j is Int,
        wf_jval(j),
        occurs_at(t, i, spec_ser(j)),
        i + spec_ser(j).len() == t.len() || !is_num_cont(t[i + spec_ser(j).len()]),
    ensures
        sp_value(t, i as nat) == Some((j, (i + spec_ser(j).len()) as nat)),
{
    let s = spec_ser(j);
    let n = j->Int_0;
    assert(pow10(19) == 10000000000000000000) by {
        reveal_with_fuel(pow10, 20);
    }
    if n >= 0 {
        let m = n as nat;
        let d = spec_dec_digits(m);
        assert(s == d);
        lemma_dec_digits_shape(m);
        assert(d[0] == t[i]);
        assert(is_json_digit(t[i]));
        lemma_parse_dec_digits(t, i, m);
        lemma_dec_digits_len(m, 19);
        if t[i] == '0' {
            lemma_dec_digits_leading(m);
        }
        assert(sp_number(t, i as nat) == Some((JVal::Int(n), (i + s.len()) as nat)));
    } else {
        let m = (-n) as nat;
        let d = spec_dec_digits(m);
        assert(s == seq!['-'] + d);
        lemma_occurs_concat(t, i, seq!['-'], d);
        assert(seq!['-'][0] == '-');
        assert(t[i] == '-');
        lemma_dec_digits_shape(m);
        assert(d[0] == t[i + 1]);
        assert(is_json_digit(t[i + 1]));
        lemma_parse_dec_digits(t, i + 1, m);
        lemma_dec_digits_len(m, 19);
        if t[i + 1] == '0' {
            lemma_dec_digits_leading(m);
            assert(false);
        }
        assert(m <= 9223372036854775808);
        assert(sp_number(t, i as nat) == Some((JVal::Int(-(m as int)), (i + s.len()) as nat)));
        assert(-(m as int) == n);
    }
}

/// Parsing serialized array elements from element `k` recovers the suffix.
proof fn lemma_parse_ser_elems(a: Seq<JVal>, t: Seq<char>, p: int, k: int)
    requires
        0 <= k < a.len(),
        forall|q: int| 0 <= q < a.len() ==> wf_jval(#[trigger] a[q]),
        occurs_at(t, p, spec_ser_arr(a, k) + seq![']']),
    ensures
        sp_elems(t, p as nat) == Some((a.skip(k), (p + spec_ser_arr(a, k).len() + 1) as nat)),
    decreases a, 1nat, a.len() - k,
{
    let first = spec_ser(a[k]);
    assert(decreases_to!(a => a[k]));
    lemma_ser_first(a[k]);
    if k == a.len() - 1 {
        assert(spec_ser_arr(a, k) == first);
        lemma_occurs_concat(t, p, first, seq![']']);
        assert(seq![']'][0] == ']');
        assert(t[p + first.len()] == ']');
        lemma_parse_ser(a[k], t, p);
        assert(seq![a[k]] =~= a.skip(k));
    } else {
        let rest = spec_ser_arr(a, k + 1);
        assert(spec_ser_arr(a, k) == first + seq![','] + rest);
        assert(spec_ser_arr(a, k) + seq![']']
            =~= first + (seq![','] + (rest + seq![']'])));
        lemma_occurs_concat(t, p, first, seq![','] + (rest + seq![']']));
        lemma_occurs_concat(t, p + first.len(), seq![','], rest + seq![']']);
        assert(seq![','][0] == ',');
        assert(t[p + first.len()] == ',');
        lemma_parse_ser(a[k], t, p);
        lemma_parse_ser_elems(a, t, p + first.len() + 1, k + 1);
        assert(seq![a[k]] + a.skip(k + 1) =~= a.skip(k));
    }
}

/// Parsing serialized object members from member `k` recovers the suffix.
proof fn lemma_parse_ser_members(o: Seq<(Seq<char>, JVal)>, t: Seq<char>, p: int, k: int)
    requires
        0 <= k < o.len(),
        forall|q: int| 0 <= q < o.len() ==> wf_jval(#[trigger] o[q].1),
        occurs_at(t, p, spec_ser_obj(o, k) + seq!['}']),
    ensures
        sp_members(t, p as nat) == Some((o.skip(k), (p + spec_ser_obj(o, k).len() + 1) as nat)),
    decreases o, 1nat, o.len() - k,
{
    let key = o[k].0;
    let keybody = spec_ser_str_body(key);
    let valser = spec_ser(o[k].1);
    let member = spec_ser_member(o[k]);
    assert(member == spec_ser_string(key) + seq![':'] + valser);
    assert(decreases_to!(o => o[k]));
    assert(decreases_to!(o[k] => o[k].1));
    lemma_ser_first(o[k].1);
    let close: Seq<char> = if k == o.len() - 1 { seq!['}'] } else { seq![','] };
    let after: Seq<char> = if k == o.len() - 1 { Seq::empty() } else {
        spec_ser_obj(o, k + 1) + seq!['}']
    };
    assert(spec_ser_obj(o, k) + seq!['}'] =~= member + (close + after)) by {
        if k == o.len() - 1 {
            assert(spec_ser_obj(o, k) == member);
            assert(member + (close + after) =~= member + seq!['}']);
        } else {
            assert(spec_ser_obj(o, k) == member + seq![','] + spec_ser_obj(o, k + 1));
        }
    }
    assert(member + (close + after)
        =~= seq!['"'] + ((keybody + seq!['"']) + (seq![':'] + (valser + (close + after)))));
    lemma_occurs_concat(t, p, seq!['"'],
        (keybody + seq!['"']) + (seq![':'] + (valser + (close + after))));
    assert(seq!['"'][0] == '"');
    assert(t[p] == '"');
    lemma_occurs_concat(t, p + 1, keybody + seq!['"'],
        seq![':'] + (valser + (close + after)));
    lemma_parse_ser_string(key, t, p + 1);
    let jcolon = p + 1 + keybody.len() + 1;
    lemma_occurs_concat(t, jcolon, seq![':'], valser + (close + after));
    assert(seq![':'][0] == ':');
    assert(t[jcolon] == ':');
    lemma_occurs_concat(t, jcolon + 1, valser, close + after);
    assert((close + after)[0] == close[0]);
    assert(t[jcolon + 1 + valser.len()] == close[0]);
    lemma_parse_ser(o[k].1, t, jcolon + 1);
    let vend = jcolon + 1 + valser.len();
    if k == o.len() - 1 {
        assert(t[vend] == '}');
        assert((o[k].0, o[k].1) == o[k]);
        assert(seq![o[k]] =~= o.skip(k));
        assert(sp_members(t, p as nat) == Some((seq![o[k]], (vend + 1) as nat)));
    } else {
        assert(t[vend] == ',');
        lemma_occurs_concat(t, vend, close, after);
        lemma_parse_ser_members(o, t, vend + 1, k + 1);
        assert((o[k].0, o[k].1) == o[k]);
        assert(seq![o[k]] + o.skip(k + 1) =~= o.skip(k));
    }
}

/// Parsing a whole serialized text yields the value back.
pub proof fn lemma_parse_text_ser(j: JVal)
    requires
        wf_jval(j),
    ensures
        sp_parse_text(spec_ser(j)) == Some(j),
{
    let t = spec_ser(j);
    assert(occurs_at(t, 0, t));
    lemma_parse_ser(j, t, 0);
}

// ------------------------------------------------------------------
// The frame-level laws.
// ------------------------------------------------------------------

/// A serialized value survives trimming: its edges are never whitespace.
pub proof fn lemma_trim_ser(j: JVal)
    requires
        wf_jval(j),
    ensures
        spec_trim(spec_ser(j)) == spec_ser(j),
        spec_ser(j).len() >= 1,
{
    let s = spec_ser(j);
    lemma_ser_first(j);
    lemma_ser_last(j);
    assert(!spec_is_ws(s[0]));
    assert(trim_front(s) == s);
    assert(trim_back(s) == s);
}

/// Splitting at a known leading delimiter peels off the first piece.
pub proof fn lemma_split_prefix(p: Seq<char>, rest: Seq<char>)
    requires
        forall|k: int| 0 <= k < p.len() ==> #[trigger] p[k] != FRAME_DELIMITER,
    ensures
        spec_split(p + seq![FRAME_DELIMITER] + rest) == seq![p] + spec_split(rest),
{
    let s = p + seq![FRAME_DELIMITER] + rest;
    assert forall|k: int| 0 <= k < p.len() implies s[k] != FRAME_DELIMITER by {
        assert(s[k] == p[k]);
    }
    assert(s[p.len() as int] == FRAME_DELIMITER);
    lemma_first_delim_at(s, p.len() as int);
    assert(s.subrange(0, p.len() as int) =~= p);
    assert(s.subrange(p.len() + 1int, s.len() as int) =~= rest);
}

/// The concatenated wire form of a sequence of frames.
pub open spec fn spec_encode_all(js: Seq<JVal>) -> Seq<char>
    decreases js.len(),
{
    if js.len() == 0 {
        Seq::empty()
    } else {
        spec_encode_frame(js[0]) + spec_encode_all(js.drop_first())
    }
}

/// Law: decoding the concatenation of any encoded frames yields exactly
/// those payloads, in order.
pub proof fn lemma_codec_round_trip_many(js: Seq<JVal>)
    requires
        forall|k: int| 0 <= k < js.len() ==> wf_jval(#[trigger] js[k]),
    ensures
        spec_decode(spec_encode_all(js)) == Some(js),
    decreases js.len(),
{
    if js.len() == 0 {
        let e = Seq::<char>::empty();
        assert(first_delim(e) == 0);
        assert(spec_split(e) == seq![e]);
        assert(trim_front(e) == e);
        assert(trim_back(e) == e);
        assert(spec_trim(e).len() == 0);
        assert((seq![e]).drop_first() =~= Seq::<Seq<char>>::empty());
        assert(spec_parse_pieces(Seq::<Seq<char>>::empty()) == Some(Seq::<JVal>::empty()));
        assert((seq![e])[0] == e);
        assert(spec_decode(spec_encode_all(js)) == Some(Seq::<JVal>::empty()));
        assert(js =~= Seq::<JVal>::empty());
    } else {
        let j0 = js[0];
        let enc0 = spec_ser(j0);
        let rest = spec_encode_all(js.drop_first());
        assert(spec_encode_all(js) =~= enc0 + seq![FRAME_DELIMITER] + rest);
        lemma_ser_no_delim(j0);
        lemma_split_prefix(enc0, rest);
        assert forall|k: int| 0 <= k < js.drop_first().len() implies
            wf_jval(#[trigger] js.drop_first()[k]) by {
            assert(js.drop_first()[k] == js[k + 1]);
        }
        lemma_codec_round_trip_many(js.drop_first());
        lemma_trim_ser(j0);
        lemma_parse_text_ser(j0);
        let ps = seq![enc0] + spec_split(rest);
        assert(ps[0] == enc0);
        assert(ps.drop_first() =~= spec_split(rest));
        assert(spec_parse_pieces(ps) == Some(seq![j0] + js.drop_first()));
        assert(seq![j0] + js.drop_first() =~= js);
    }
}

/// Law: decoding one encoded frame yields exactly that payload, as the
/// message's only frame.
pub proof fn lemma_codec_round_trip(j: JVal)
    requires
        wf_jval(j),
    ensures
        spec_decode(spec_encode_frame(j)) == Some(seq![j]),
{
    let js = seq![j];
    assert(js[0] == j);
    assert(js.drop_first() =~= Seq::<JVal>::empty());
    lemma_codec_round_trip_many(js);
    assert(spec_encode_all(Seq::<JVal>::empty()) == Seq::<char>::empty());
    assert(spec_encode_all(js) =~= spec_encode_frame(j));
}

} // verus!

