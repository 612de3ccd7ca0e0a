//! The JSON value model used on the wire, with a verified serializer and a
//! verified parser.
//!
//! The protocol's frames are JSON documents; the crate owns the format, so a
//! frame's text form is a function on the value defined here and proved,
//! rather than an outside call. Numbers are 64-bit integers: no frame field
//! the protocol reads is fractional, and the parser rejects fractions and
//! exponents outright.

use vstd::prelude::*;

verus! {

/// The mathematical form of a JSON document.
#[verifier::ext_equal]
pub enum JVal {
    Null,
    Bool(bool),
    Int(int),
    Num(Seq<char>),
    Str(Seq<char>),
    Arr(Seq<JVal>),
    Obj(Seq<(Seq<char>, JVal)>),
}

/// A JSON document, as executable data. Object member order is kept, and
/// duplicate keys are kept; lookups take the first match.
pub enum JsonValue {
    Null,
    Bool(bool),
    Int(i64),
    Num(String),
    Str(String),
    Array(Vec<JsonValue>),
    Object(Vec<(String, JsonValue)>),
}

/// The mathematical value of a document.
pub open spec fn jval_of(v: JsonValue) -> JVal
    decreases v, 0nat, 0nat,
{
    match v {
        JsonValue::Null => JVal::Null,
        JsonValue::Bool(b) => JVal::Bool(b),
        JsonValue::Int(n) => JVal::Int(n as int),
        JsonValue::Num(s) => JVal::Num(s@),
        JsonValue::Str(s) => JVal::Str(s@),
        JsonValue::Array(a) => JVal::Arr(jvals_of(a, 0)),
        JsonValue::Object(o) => JVal::Obj(jkvs_of(o, 0)),
    }
}

/// The mathematical values of the elements of `a` from index `i` on.
pub open spec fn jvals_of(a: Vec<JsonValue>, i: int) -> Seq<JVal>
    decreases a, 1nat, a.len() - i,
{
    if 0 <= i < a.len() {
        seq![jval_of(a[i])] + jvals_of(a, i + 1)
    } else {
        Seq::empty()
    }
}

/// The mathematical value of one object member.
pub open spec fn jkv_of(m: (String, JsonValue)) -> (Seq<char>, JVal)
    decreases m, 0nat, 0nat,
{
    (m.0@, jval_of(m.1))
}

/// The mathematical values of the members of `o` from index `i` on.
pub open spec fn jkvs_of(o: Vec<(String, JsonValue)>, i: int) -> Seq<(Seq<char>, JVal)>
    decreases o, 1nat, o.len() - i,
{
    if 0 <= i < o.len() {
        seq![jkv_of(o[i])] + jkvs_of(o, i + 1)
    } else {
        Seq::empty()
    }
}

impl View for JsonValue {
    type V = JVal;

    open spec fn view(&self) -> JVal {
        jval_of(*self)
    }
}

impl DeepView for JsonValue {
    type V = JVal;

    open spec fn deep_view(&self) -> JVal {
        jval_of(*self)
    }
}

/// `jvals_of(a, i)` lists the element values of `a[i..]`, in order.
pub proof fn lemma_jvals_of(a: Vec<JsonValue>, i: int)
    requires
        0 <= i <= a.len(),
    ensures
        jvals_of(a, i).len() == a.len() - i,
        forall|k: int| 0 <= k < a.len() - i ==> jvals_of(a, i)[k] == jval_of(a[i + k]),
    decreases a.len() - i,
{
    if i < a.len() {
        lemma_jvals_of(a, i + 1);
    }
}

/// `jkvs_of(o, i)` lists the member values of `o[i..]`, in order.
pub proof fn lemma_jkvs_of(o: Vec<(String, JsonValue)>, i: int)
    requires
        0 <= i <= o.len(),
    ensures
        jkvs_of(o, i).len() == o.len() - i,
        forall|k: int| 0 <= k < o.len() - i ==> jkvs_of(o, i)[k] == jkv_of(o[i + k]),
    decreases o.len() - i,
{
    if i < o.len() {
        lemma_jkvs_of(o, i + 1);
    }
}

/// Whether a mathematical JSON value is one the codec laws cover: every
/// number is an integer that fits in an `i64`. A fractional number is
/// carried through as its exact text and never rebuilt, so it stays
/// outside the laws.
pub open spec fn wf_jval(j: JVal) -> bool
    decreases j, 1nat, 0nat,
{
    match j {
        JVal::Int(n) => i64::MIN <= n <= i64::MAX,
        JVal::Num(t) => false,
        JVal::Arr(a) => wf_jvals(a, 0),
        JVal::Obj(o) => wf_jkvs(o, 0),
        _ => true,
    }
}

pub open spec fn wf_jvals(a: Seq<JVal>, i: int) -> bool
    decreases a, 2nat, a.len() - i,
{
    if 0 <= i < a.len() {
        wf_jval(a[i]) && wf_jvals(a, i + 1)
    } else {
        true
    }
}

pub open spec fn wf_jkv(m: (Seq<char>, JVal)) -> bool
    decreases m, 2nat, 0nat,
{
    wf_jval(m.1)
}

pub open spec fn wf_jkvs(o: Seq<(Seq<char>, JVal)>, i: int) -> bool
    decreases o, 3nat, o.len() - i,
{
    if 0 <= i < o.len() {
        wf_jkv(o[i]) && wf_jkvs(o, i + 1)
    } else {
        true
    }
}

pub proof fn lemma_wf_jvals(a: Seq<JVal>, i: int)
    requires
        0 <= i <= a.len(),
        wf_jvals(a, i),
    ensures
        forall|k: int| i <= k < a.len() ==> wf_jval(#[trigger] a[k]),
    decreases a.len() - i,
{
    if i < a.len() {
        lemma_wf_jvals(a, i + 1);
    }
}

pub proof fn lemma_wf_jkvs(o: Seq<(Seq<char>, JVal)>, i: int)
    requires
        0 <= i <= o.len(),
        wf_jkvs(o, i),
    ensures
        forall|k: int| i <= k < o.len() ==> wf_jval(#[trigger] o[k].1),
    decreases o.len() - i,
{
    if i < o.len() {
        assert(wf_jkv(o[i]));
        assert(wf_jval(o[i].1));
        lemma_wf_jkvs(o, i + 1);
    }
}

/// Whether an executable document holds integers only: such documents are
/// exactly the ones the codec laws cover.
pub open spec fn int_only(v: JsonValue) -> bool
    decreases v, 3nat, 0nat,
{
    match v {
        JsonValue::Num(t) => false,
        JsonValue::Array(a) => int_only_all(a, 0),
        JsonValue::Object(o) => int_only_kvs(o, 0),
        _ => true,
    }
}

pub open spec fn int_only_all(a: Vec<JsonValue>, i: int) -> bool
    decreases a, 4nat, a.len() - i,
{
    if 0 <= i < a.len() {
        int_only(a[i]) && int_only_all(a, i + 1)
    } else {
        true
    }
}

pub open spec fn int_only_kv(m: (String, JsonValue)) -> bool
    decreases m, 4nat, 0nat,
{
    int_only(m.1)
}

pub open spec fn int_only_kvs(o: Vec<(String, JsonValue)>, i: int) -> bool
    decreases o, 5nat, o.len() - i,
{
    if 0 <= i < o.len() {
        int_only_kv(o[i]) && int_only_kvs(o, i + 1)
    } else {
        true
    }
}

/// Every integer-only value of the executable model is covered by the
/// codec laws.
pub proof fn lemma_view_wf(v: JsonValue)
    requires
        int_only(v),
    ensures
        wf_jval(v@),
    decreases v, 6nat, 0nat,
{
    match v {
        JsonValue::Array(a) => {
            lemma_views_wf(a, 0);
        },
        JsonValue::Object(o) => {
            lemma_kv_views_wf(o, 0);
        },
        _ => {},
    }
}

proof fn lemma_views_wf(a: Vec<JsonValue>, i: int)
    requires
        0 <= i,
        int_only_all(a, i),
    ensures
        wf_jvals(jvals_of(a, i), 0),
    decreases a, 7nat, a.len() - i,
{
    if i < a.len() {
        lemma_view_wf(a[i]);
        lemma_views_wf(a, i + 1);
        lemma_wf_jvals_cons(jval_of(a[i]), jvals_of(a, i + 1));
    }
}

proof fn lemma_kv_views_wf(o: Vec<(String, JsonValue)>, i: int)
    requires
        0 <= i,
        int_only_kvs(o, i),
    ensures
        wf_jkvs(jkvs_of(o, i), 0),
    decreases o, 7nat, o.len() - i,
{
    if i < o.len() {
        lemma_kv_view_wf(o[i]);
        lemma_kv_views_wf(o, i + 1);
        lemma_wf_jkvs_cons(jkv_of(o[i]), jkvs_of(o, i + 1));
    }
}

proof fn lemma_kv_view_wf(m: (String, JsonValue))
    requires
        int_only_kv(m),
    ensures
        wf_jkv(jkv_of(m)),
    decreases m, 7nat, 0nat,
{
    lemma_view_wf(m.1);
}

proof fn lemma_wf_jvals_cons(x: JVal, rest: Seq<JVal>)
    requires
        wf_jval(x),
        wf_jvals(rest, 0),
    ensures
        wf_jvals(seq![x] + rest, 0),
{
    let all = seq![x] + rest;
    lemma_wf_jvals(rest, 0);
    lemma_wf_jvals_from_pointwise(all, 0);
}

proof fn lemma_wf_jkvs_cons(x: (Seq<char>, JVal), rest: Seq<(Seq<char>, JVal)>)
    requires
        wf_jval(x.1),
        wf_jkvs(rest, 0),
    ensures
        wf_jkvs(seq![x] + rest, 0),
{
    let all = seq![x] + rest;
    lemma_wf_jkvs(rest, 0);
    lemma_wf_jkvs_from_pointwise(all, 0);
}

proof fn lemma_wf_jvals_from_pointwise(a: Seq<JVal>, i: int)
    requires
        0 <= i <= a.len(),
        forall|k: int| i <= k < a.len() ==> wf_jval(#[trigger] a[k]),
    ensures
        wf_jvals(a, i),
    decreases a.len() - i,
{
    if i < a.len() {
        lemma_wf_jvals_from_pointwise(a, i + 1);
    }
}

proof fn lemma_wf_jkvs_from_pointwise(o: Seq<(Seq<char>, JVal)>, i: int)
    requires
        0 <= i <= o.len(),
        forall|k: int| i <= k < o.len() ==> wf_jval(#[trigger] o[k].1),
    ensures
        wf_jkvs(o, i),
    decreases o.len() - i,
{
    if i < o.len() {
        assert(wf_jval(o[i].1));
        assert(wf_jkv(o[i]));
        lemma_wf_jkvs_from_pointwise(o, i + 1);
    }
}

// ------------------------------------------------------------------
// Serialization: the text form of a value.
// ------------------------------------------------------------------

/// The hexadecimal digit character of a value below sixteen.
pub open spec fn spec_hex_char(d: nat) -> char
    recommends
        d < 16,
{
    if d < 10 {
        crate::text::spec_digit_char(d)
    } else if d == 10 { 'a' }
    else if d == 11 { 'b' }
    else if d == 12 { 'c' }
    else if d == 13 { 'd' }
    else if d == 14 { 'e' }
    else { 'f' }
}

/// How one character appears inside a JSON string literal: quotes and
/// backslashes get a two-character escape, control characters get the
/// six-character `\u00..` escape, anything else stands as itself.
pub open spec fn spec_esc_char(c: char) -> Seq<char> {
    if c == '"' {
        seq!['\\', '"']
    } else if c == '\\' {
        seq!['\\', '\\']
    } else if (c as u32) < 0x20 {
        seq!['\\', 'u', '0', '0',
            spec_hex_char(((c as u32) / 16) as nat),
            spec_hex_char(((c as u32) % 16) as nat)]
    } else {
        seq![c]
    }
}

/// The body of a JSON string literal: each character escaped in order.
pub open spec fn spec_ser_str_body(s: Seq<char>) -> Seq<char>
    decreases s.len(),
{
    if s.len() == 0 {
        Seq::empty()
    } else {
        spec_esc_char(s[0]) + spec_ser_str_body(s.drop_first())
    }
}

/// A whole JSON string literal, quotes included.
pub open spec fn spec_ser_string(s: Seq<char>) -> Seq<char> {
    seq!['"'] + spec_ser_str_body(s) + seq!['"']
}

/// The decimal text of an integer.
pub open spec fn spec_ser_int(n: int) -> Seq<char> {
    if n < 0 {
        seq!['-'] + crate::text::spec_dec_digits((-n) as nat)
    } else {
        crate::text::spec_dec_digits(n as nat)
    }
}

/// The canonical text of a JSON value: compact, no interior whitespace.
pub open spec fn spec_ser(j: JVal) -> Seq<char>
    decreases j, 0nat, 0nat,
{
    match j {
        JVal::Null => seq!['n', 'u', 'l', 'l'],
        JVal::Bool(b) => if b {
            seq!['t', 'r', 'u', 'e']
        } else {
            seq!['f', 'a', 'l', 's', 'e']
        },
        JVal::Int(n) => spec_ser_int(n),
        JVal::Num(t) => t,
        JVal::Str(s) => spec_ser_string(s),
        JVal::Arr(a) => seq!['['] + spec_ser_arr(a, 0) + seq![']'],
        JVal::Obj(o) => seq!['{'] + spec_ser_obj(o, 0) + seq!['}'],
    }
}

/// The texts of the elements of `a` from index `i` on, joined by commas.
pub open spec fn spec_ser_arr(a: Seq<JVal>, i: int) -> Seq<char>
    decreases a, 1nat, a.len() - i,
{
    if 0 <= i < a.len() {
        if i == a.len() - 1 {
            spec_ser(a[i])
        } else {
            spec_ser(a[i]) + seq![','] + spec_ser_arr(a, i + 1)
        }
    } else {
        Seq::empty()
    }
}

/// The text of one object member: quoted key, colon, value.
pub open spec fn spec_ser_member(m: (Seq<char>, JVal)) -> Seq<char>
    decreases m, 1nat, 0nat,
{
    spec_ser_string(m.0) + seq![':'] + spec_ser(m.1)
}

/// The texts of the members of `o` from index `i` on, joined by commas.
pub open spec fn spec_ser_obj(o: Seq<(Seq<char>, JVal)>, i: int) -> Seq<char>
    decreases o, 2nat, o.len() - i,
{
    if 0 <= i < o.len() {
        if i == o.len() - 1 {
            spec_ser_member(o[i])
        } else {
            spec_ser_member(o[i]) + seq![','] + spec_ser_obj(o, i + 1)
        }
    } else {
        Seq::empty()
    }
}

/// Appending an element extends the joined element texts by a comma and
/// the element's text.
pub proof fn lemma_ser_arr_push(a: Seq<JVal>, x: JVal, i: int)
    requires
        0 <= i <= a.len(),
    ensures
        spec_ser_arr(a.push(x), i) == if i == a.len() {
            spec_ser(x)
        } else {
            spec_ser_arr(a, i) + seq![','] + spec_ser_arr(a.push(x), a.len() as int)
        },
        spec_ser_arr(a.push(x), a.len() as int) == spec_ser(x),
    decreases a.len() - i,
{
    let q = a.push(x);
    assert(q[a.len() as int] == x);
    if i == a.len() {
    } else {
        lemma_ser_arr_push(a, x, i + 1);
        assert(q[i] == a[i]);
        if i == a.len() - 1 {
        } else {
            assert((spec_ser(a[i]) + seq![','] + (spec_ser_arr(a, i + 1) + seq![','] + spec_ser(x)))
                =~= ((spec_ser(a[i]) + seq![','] + spec_ser_arr(a, i + 1)) + seq![','] + spec_ser(x)));
        }
    }
}

/// Appending a member extends the joined member texts by a comma and the
/// member's text.
pub proof fn lemma_ser_obj_push(o: Seq<(Seq<char>, JVal)>, m: (Seq<char>, JVal), i: int)
    requires
        0 <= i <= o.len(),
    ensures
        spec_ser_obj(o.push(m), i) == if i == o.len() {
            spec_ser_member(m)
        } else {
            spec_ser_obj(o, i) + seq![','] + spec_ser_obj(o.push(m), o.len() as int)
        },
        spec_ser_obj(o.push(m), o.len() as int) == spec_ser_member(m),
    decreases o.len() - i,
{
    let q = o.push(m);
    assert(q[o.len() as int] == m);
    if i == o.len() {
    } else {
        lemma_ser_obj_push(o, m, i + 1);
        assert(q[i] == o[i]);
        if i == o.len() - 1 {
        } else {
            assert((spec_ser_member(o[i]) + seq![','] + (spec_ser_obj(o, i + 1) + seq![','] + spec_ser_member(m)))
                =~= ((spec_ser_member(o[i]) + seq![','] + spec_ser_obj(o, i + 1)) + seq![','] + spec_ser_member(m)));
        }
    }
}

fn hex_char(d: u32) -> (r: char)
    requires
        d < 16,
    ensures
        r == spec_hex_char(d as nat),
{
    if d == 0 { '0' }
    else if d == 1 { '1' }
    else if d == 2 { '2' }
    else if d == 3 { '3' }
    else if d == 4 { '4' }
    else if d == 5 { '5' }
    else if d == 6 { '6' }
    else if d == 7 { '7' }
    else if d == 8 { '8' }
    else if d == 9 { '9' }
    else if d == 10 { 'a' }
    else if d == 11 { 'b' }
    else if d == 12 { 'c' }
    else if d == 13 { 'd' }
    else if d == 14 { 'e' }
    else { 'f' }
}

/// Appends the escaped form of one string-literal character.
fn push_esc_char(out: &mut Vec<char>, c: char)
    ensures
        final(out)@ == old(out)@ + spec_esc_char(c),
{
    if c == '"' {
        out.push('\\');
        out.push('"');
        assert(final(out)@ =~= old(out)@ + spec_esc_char(c));
    } else if c == '\\' {
        out.push('\\');
        out.push('\\');
        assert(final(out)@ =~= old(out)@ + spec_esc_char(c));
    } else if (c as u32) < 0x20 {
        let n = c as u32;
        out.push('\\');
        out.push('u');
        out.push('0');
        out.push('0');
        out.push(hex_char(n / 16));
        out.push(hex_char(n % 16));
        assert(final(out)@ =~= old(out)@ + spec_esc_char(c));
    } else {
        out.push(c);
        assert(final(out)@ =~= old(out)@ + spec_esc_char(c));
    }
}

/// Escaping one more character extends the literal body by its escape.
pub proof fn lemma_ser_str_body_push(s: Seq<char>, c: char)
    ensures
        spec_ser_str_body(s.push(c)) == spec_ser_str_body(s) + spec_esc_char(c),
    decreases s.len(),
{
    if s.len() == 0 {
        assert(s.push(c).drop_first() =~= Seq::<char>::empty());
        assert(s.push(c)[0] == c);
        assert(spec_ser_str_body(s.push(c)) =~= spec_esc_char(c) + spec_ser_str_body(Seq::empty()));
        assert(spec_esc_char(c) + Seq::<char>::empty() =~= spec_esc_char(c));
        assert(spec_ser_str_body(s) + spec_esc_char(c) =~= spec_esc_char(c));
    } else {
        assert(s.push(c).drop_first() =~= s.drop_first().push(c));
        lemma_ser_str_body_push(s.drop_first(), c);
        assert(s.push(c)[0] == s[0]);
        assert((spec_esc_char(s[0]) + (spec_ser_str_body(s.drop_first()) + spec_esc_char(c)))
            =~= ((spec_esc_char(s[0]) + spec_ser_str_body(s.drop_first())) + spec_esc_char(c)));
    }
}

/// Appends a whole JSON string literal for `s`.
fn push_json_string(out: &mut Vec<char>, s: &str)
    ensures
        final(out)@ == old(out)@ + spec_ser_string(s@),
{
    let ghost base = out@;
    out.push('"');
    let n = s.unicode_len();
    let mut i: usize = 0;
    while i < n
        invariant
            i <= n,
            n == s@.len(),
            out@ == base + seq!['"'] + spec_ser_str_body(s@.take(i as int)),
        decreases n - i,
    {
        let c = s.get_char(i);
        push_esc_char(out, c);
        proof {
            lemma_ser_str_body_push(s@.take(i as int), c);
            assert(s@.take(i + 1int) =~= s@.take(i as int).push(c));
            assert(out@ =~= base + seq!['"'] + spec_ser_str_body(s@.take(i + 1int)));
        }
        i += 1;
    }
    proof {
        assert(s@.take(n as int) =~= s@);
    }
    out.push('"');
    proof {
        assert(final(out)@ =~= base + spec_ser_string(s@));
    }
}

/// Appends the decimal text of an integer.
fn push_json_int(out: &mut Vec<char>, n: i64)
    ensures
        final(out)@ == old(out)@ + spec_ser_int(n as int),
{
    if n < 0 {
        out.push('-');
        let m: u64 = if n == i64::MIN {
            9223372036854775808u64
        } else {
            (-n) as u64
        };
        assert(m == -(n as int));
        crate::text::push_dec_digits(out, m);
        assert(final(out)@ =~= old(out)@ + spec_ser_int(n as int));
    } else {
        crate::text::push_dec_digits(out, n as u64);
    }
}

/// Appends the canonical text of a value to `out`.
#[verifier::loop_isolation(false)]
pub fn push_json(out: &mut Vec<char>, v: &JsonValue)
    ensures
        final(out)@ == old(out)@ + spec_ser(v@),
    decreases v,
{
    let ghost base = out@;
    match v {
        JsonValue::Null => {
            out.push('n');
            out.push('u');
            out.push('l');
            out.push('l');
            assert(final(out)@ =~= base + spec_ser(v@));
        },
        JsonValue::Bool(b) => {
            if *b {
                out.push('t');
                out.push('r');
                out.push('u');
                out.push('e');
            } else {
                out.push('f');
                out.push('a');
                out.push('l');
                out.push('s');
                out.push('e');
            }
            assert(final(out)@ =~= base + spec_ser(v@));
        },
        JsonValue::Int(n) => {
            push_json_int(out, *n);
        },
        JsonValue::Num(t) => {
            crate::text::push_str_chars(out, t.as_str());
        },
        JsonValue::Str(s) => {
            push_json_string(out, s.as_str());
        },
        JsonValue::Array(a) => {
            let ghost vals = jvals_of(*a, 0);
            proof {
                lemma_jvals_of(*a, 0);
            }
            out.push('[');
            let mut i: usize = 0;
            while i < a.len()
                invariant
                    i <= a.len(),
                    vals == jvals_of(*a, 0),
                    vals.len() == a.len(),
                    forall|k: int| 0 <= k < a.len() ==> vals[k] == jval_of(a[k]),
                    out@ == base + seq!['['] + spec_ser_arr(vals.take(i as int), 0),
                decreases a.len() - i,
            {
                if i > 0 {
                    out.push(',');
                }
                proof {
                    assert(*a == (*v)->Array_0);
                    assert(decreases_to!(*v => (*v)->Array_0));
                    assert(decreases_to!(*a => (*a)@));
                    assert(decreases_to!((*a)@ => (*a)@[i as int]));
                    assert(decreases_to!(*v => (*a)@[i as int]));
                }
                push_json(out, &a[i]);
                proof {
                    lemma_ser_arr_push(vals.take(i as int), vals[i as int], 0);
                    assert(vals.take(i + 1int) =~= vals.take(i as int).push(vals[i as int]));
                    assert(out@ =~= base + seq!['['] + spec_ser_arr(vals.take(i + 1int), 0));
                }
                i += 1;
            }
            proof {
                assert(vals.take(a@.len() as int) =~= vals);
            }
            out.push(']');
            proof {
                assert(final(out)@ =~= base + spec_ser(v@));
            }
        },
        JsonValue::Object(o) => {
            let ghost mems = jkvs_of(*o, 0);
            proof {
                lemma_jkvs_of(*o, 0);
            }
            out.push('{');
            let mut i: usize = 0;
            while i < o.len()
                invariant
                    i <= o.len(),
                    mems == jkvs_of(*o, 0),
                    mems.len() == o.len(),
                    forall|k: int| 0 <= k < o.len() ==> mems[k] == jkv_of(o[k]),
                    out@ == base + seq!['{'] + spec_ser_obj(mems.take(i as int), 0),
                decreases o.len() - i,
            {
                if i > 0 {
                    out.push(',');
                }
                let entry = &o[i];
                push_json_string(out, entry.0.as_str());
                out.push(':');
                proof {
                    assert(*o == (*v)->Object_0);
                    assert(decreases_to!(*v => (*v)->Object_0));
                    assert(decreases_to!(*o => (*o)@));
                    assert(decreases_to!((*o)@ => (*o)@[i as int]));
                    assert(decreases_to!((*o)@[i as int] => (*o)@[i as int].1));
                    assert(decreases_to!(*v => (*o)@[i as int].1));
                }
                push_json(out, &entry.1);
                proof {
                    lemma_ser_obj_push(mems.take(i as int), mems[i as int], 0);
                    assert(mems.take(i + 1int) =~= mems.take(i as int).push(mems[i as int]));
                    assert(out@ =~= base + seq!['{'] + spec_ser_obj(mems.take(i + 1int), 0));
                }
                i += 1;
            }
            proof {
                assert(mems.take(o@.len() as int) =~= mems);
            }
            out.push('}');
            proof {
                assert(final(out)@ =~= base + spec_ser(v@));
            }
        },
    }
}

/// The canonical text of a value, as a fresh character buffer.
pub fn json_chars(v: &JsonValue) -> (r: Vec<char>)
    ensures
        r@ == spec_ser(v@),
{
    let mut out: Vec<char> = Vec::new();
    push_json(&mut out, v);
    out
}


// ------------------------------------------------------------------
// Parsing: from text back to values.
//
// The parser is strict: compact JSON with no interior whitespace (frame
// pieces are trimmed before parsing), integer numbers only, and no
// surrogate-pair escapes. It accepts every text the serializer produces.
// ------------------------------------------------------------------

/// Whether a character is a decimal digit.
pub open spec fn is_json_digit(c: char) -> bool {
    0x30 <= (c as u32) && (c as u32) <= 0x39
}

/// The value of a decimal digit character.
pub open spec fn spec_digit_val(c: char) -> nat
    recommends
        is_json_digit(c),
{
    ((c as u32) - 0x30) as nat
}

/// The value of a hexadecimal digit character, if it is one.
pub open spec fn sp_hex_val(c: char) -> Option<u32> {
    let n = c as u32;
    if 0x30 <= n && n <= 0x39 {
        Some((n - 0x30) as u32)
    } else if 0x61 <= n && n <= 0x66 {
        Some((n - 0x57) as u32)
    } else if 0x41 <= n && n <= 0x46 {
        Some((n - 0x37) as u32)
    } else {
        None
    }
}

/// Whether a code is a Unicode scalar value, that is, the code of a `char`.
pub open spec fn is_scalar_code(n: u32) -> bool {
    n < 0xD800 || (0xE000 <= n && n <= 0x10FFFF)
}

/// The character with the given code.
pub open spec fn spec_char_of(n: u32) -> char {
    choose|c: char| #[trigger] (c as u32) == n
}

pub proof fn lemma_spec_char_of(n: u32, c: char)
    requires
        c as u32 == n,
    ensures
        spec_char_of(n) == c,
{
    assert(spec_char_of(n) as u32 == n);
}

/// The character a two-character escape stands for, if the escape is legal.
pub open spec fn sp_unescape(e: char) -> Option<char> {
    if e == '"' { Some('"') }
    else if e == '\\' { Some('\\') }
    else if e == '/' { Some('/') }
    else if e == 'b' { Some('\u{8}') }
    else if e == 'f' { Some('\u{c}') }
    else if e == 'n' { Some('\n') }
    else if e == 'r' { Some('\r') }
    else if e == 't' { Some('\t') }
    else { None }
}

/// Parses the body of a string literal starting at `i` (just past the
/// opening quote); on success yields the decoded characters and the
/// position just past the closing quote.
pub open spec fn sp_string_body(s: Seq<char>, i: nat) -> Option<(Seq<char>, nat)>
    decreases s.len() - i,
{
    if i >= s.len() {
        None
    } else if s[i as int] == '"' {
        Some((Seq::empty(), (i + 1) as nat))
    } else if s[i as int] == '\\' {
        if i + 1 >= s.len() {
            None
        } else {
            let e = s[(i + 1) as int];
            if e == 'u' {
                if i + 6 <= s.len() {
                    match (sp_hex_val(s[(i + 2) as int]), sp_hex_val(s[(i + 3) as int]), sp_hex_val(s[(i + 4) as int]),
                        sp_hex_val(s[(i + 5) as int])) {
                        (Some(h0), Some(h1), Some(h2), Some(h3)) => {
                            let n = (h0 * 4096 + h1 * 256 + h2 * 16 + h3) as u32;
                            if is_scalar_code(n) {
                                match sp_string_body(s, (i + 6) as nat) {
                                    Some(p) => Some((seq![spec_char_of(n)] + p.0, p.1)),
                                    None => None,
                                }
                            } else {
                                None
                            }
                        },
                        _ => None,
                    }
                } else {
                    None
                }
            } else {
                match sp_unescape(e) {
                    Some(c) => match sp_string_body(s, (i + 2) as nat) {
                        Some(p) => Some((seq![c] + p.0, p.1)),
                        None => None,
                    },
                    None => None,
                }
            }
        }
    } else if (s[i as int] as u32) < 0x20 {
        None
    } else {
        match sp_string_body(s, (i + 1) as nat) {
            Some(p) => Some((seq![s[i as int]] + p.0, p.1)),
            None => None,
        }
    }
}

/// The first position at or after `i` holding no decimal digit.
pub open spec fn sp_digit_run_end(s: Seq<char>, i: nat) -> nat
    decreases s.len() - i,
{
    if i < s.len() && is_json_digit(s[i as int]) {
        sp_digit_run_end(s, (i + 1) as nat)
    } else {
        i
    }
}

/// The value of the decimal digits `s[i..j]`.
pub open spec fn sp_digits_val(s: Seq<char>, i: nat, j: nat) -> nat
    decreases j - i,
{
    if i < j && j <= s.len() {
        sp_digits_val(s, i, (j - 1) as nat) * 10 + spec_digit_val(s[j - 1int])
    } else {
        0
    }
}

/// Ten to the power `k`.
pub open spec fn pow10(k: nat) -> nat
    decreases k,
{
    if k == 0 {
        1
    } else {
        10 * pow10((k - 1) as nat)
    }
}

pub proof fn lemma_pow10_mono(a: nat, b: nat)
    requires
        a <= b,
    ensures
        pow10(a) <= pow10(b),
        pow10(a) >= 1,
    decreases b,
{
    if b > 0 {
        if a == b {
            lemma_pow10_mono((a - 1) as nat, (b - 1) as nat);
        } else {
            lemma_pow10_mono(a, (b - 1) as nat);
        }
    }
}

/// The value of a digit run is below ten to the run's length.
pub proof fn lemma_digits_val_bound(s: Seq<char>, i: nat, j: nat)
    requires
        i <= j <= s.len(),
        forall|k: int| i <= k < j ==> is_json_digit(#[trigger] s[k]),
    ensures
        sp_digits_val(s, i, j) < pow10((j - i) as nat),
    decreases j - i,
{
    if i < j {
        lemma_digits_val_bound(s, i, (j - 1) as nat);
        assert(is_json_digit(s[j - 1int]));
        assert(spec_digit_val(s[j - 1int]) <= 9);
    }
}

pub proof fn lemma_run_end(s: Seq<char>, i: nat, end: nat)
    requires
        i <= end <= s.len(),
        forall|k: int| i <= k < end ==> is_json_digit(#[trigger] s[k]),
        end == s.len() || !is_json_digit(s[end as int]),
    ensures
        sp_digit_run_end(s, i) == end,
    decreases end - i,
{
    if i < end {
        lemma_run_end(s, (i + 1) as nat, end);
    }
}

/// Parses a number starting at `i`: no leading zeros, and an integer must
/// fit an `i64`. A number with a fraction or exponent is kept as its exact
/// text, never interpreted.
pub open spec fn sp_number(s: Seq<char>, i: nat) -> Option<(JVal, nat)>
    recommends
        i < s.len(),
{
    let neg = s[i as int] == '-';
    let d0 = if neg { (i + 1) as nat } else { i };
    if d0 < s.len() && is_json_digit(s[d0 as int]) {
        let iend = sp_digit_run_end(s, d0);
        if s[d0 as int] == '0' && iend > d0 + 1 {
            None
        } else if iend < s.len() && (s[iend as int] == '.' || s[iend as int] == 'e'
            || s[iend as int] == 'E') {
            match sp_num_tail(s, iend) {
                Some(end) => Some((JVal::Num(s.subrange(i as int, end as int)), end)),
                None => None,
            }
        } else if iend - d0 > 19 {
            None
        } else {
            let val = sp_digits_val(s, d0, iend);
            if neg {
                if val <= 9223372036854775808 {
                    Some((JVal::Int(-(val as int)), iend))
                } else {
                    None
                }
            } else {
                if val <= 9223372036854775807 {
                    Some((JVal::Int(val as int), iend))
                } else {
                    None
                }
            }
        }
    } else {
        None
    }
}

/// Parses the fraction and exponent tail of a number, starting at its
/// `.`, `e` or `E`; yields the position just past the number.
pub open spec fn sp_num_tail(s: Seq<char>, j: nat) -> Option<nat>
    recommends
        j < s.len(),
{
    if s[j as int] == '.' {
        let fe = sp_digit_run_end(s, (j + 1) as nat);
        if fe == j + 1 {
            None
        } else if fe < s.len() && (s[fe as int] == 'e' || s[fe as int] == 'E') {
            sp_exp_tail(s, fe)
        } else {
            Some(fe)
        }
    } else {
        sp_exp_tail(s, j)
    }
}

/// Parses an exponent, starting at its `e` or `E`.
pub open spec fn sp_exp_tail(s: Seq<char>, j: nat) -> Option<nat> {
    let k = (j + 1) as nat;
    let k2 = if k < s.len() && (s[k as int] == '+' || s[k as int] == '-') {
        (k + 1) as nat
    } else {
        k
    };
    let ee = sp_digit_run_end(s, k2);
    if ee == k2 {
        None
    } else {
        Some(ee)
    }
}

/// Parses one JSON value starting at `i`; on success yields the value and
/// the position just past it.
pub open spec fn sp_value(s: Seq<char>, i: nat) -> Option<(JVal, nat)>
    decreases s.len() - i, 0nat,
{
    if i >= s.len() {
        None
    } else {
        let c = s[i as int];
        if c == 'n' {
            if i + 4 <= s.len() && s[(i + 1) as int] == 'u' && s[(i + 2) as int] == 'l' && s[(i + 3) as int] == 'l' {
                Some((JVal::Null, (i + 4) as nat))
            } else {
                None
            }
        } else if c == 't' {
            if i + 4 <= s.len() && s[(i + 1) as int] == 'r' && s[(i + 2) as int] == 'u' && s[(i + 3) as int] == 'e' {
                Some((JVal::Bool(true), (i + 4) as nat))
            } else {
                None
            }
        } else if c == 'f' {
            if i + 5 <= s.len() && s[(i + 1) as int] == 'a' && s[(i + 2) as int] == 'l' && s[(i + 3) as int] == 's'
                && s[(i + 4) as int] == 'e' {
                Some((JVal::Bool(false), (i + 5) as nat))
            } else {
                None
            }
        } else if c == '"' {
            match sp_string_body(s, (i + 1) as nat) {
                Some(p) => Some((JVal::Str(p.0), p.1)),
                None => None,
            }
        } else if c == '-' || is_json_digit(c) {
            sp_number(s, i)
        } else if c == '[' {
            if i + 1 < s.len() && s[(i + 1) as int] == ']' {
                Some((JVal::Arr(Seq::empty()), (i + 2) as nat))
            } else {
                match sp_elems(s, (i + 1) as nat) {
                    Some(p) => Some((JVal::Arr(p.0), p.1)),
                    None => None,
                }
            }
        } else if c == '{' {
            if i + 1 < s.len() && s[(i + 1) as int] == '}' {
                Some((JVal::Obj(Seq::empty()), (i + 2) as nat))
            } else {
                match sp_members(s, (i + 1) as nat) {
                    Some(p) => Some((JVal::Obj(p.0), p.1)),
                    None => None,
                }
            }
        } else {
            None
        }
    }
}

/// Parses the elements of a non-empty array from `i` up to and past the
/// closing bracket.
pub open spec fn sp_elems(s: Seq<char>, i: nat) -> Option<(Seq<JVal>, nat)>
    decreases s.len() - i, 1nat,
{
    match sp_value(s, i) {
        None => None,
        Some(p) => {
            let v = p.0;
            let j = p.1;
            if i < j && j < s.len() {
                if s[j as int] == ',' {
                    match sp_elems(s, (j + 1) as nat) {
                        Some(q) => Some((seq![v] + q.0, q.1)),
                        None => None,
                    }
                } else if s[j as int] == ']' {
                    Some((seq![v], (j + 1) as nat))
                } else {
                    None
                }
            } else {
                None
            }
        },
    }
}

/// Parses the members of a non-empty object from `i` up to and past the
/// closing brace.
pub open spec fn sp_members(s: Seq<char>, i: nat) -> Option<(Seq<(Seq<char>, JVal)>, nat)>
    decreases s.len() - i, 1nat,
{
    if i >= s.len() || s[i as int] != '"' {
        None
    } else {
        match sp_string_body(s, (i + 1) as nat) {
            None => None,
            Some(kp) => {
                let key = kp.0;
                let j = kp.1;
                if i < j && j < s.len() && s[j as int] == ':' {
                    match sp_value(s, (j + 1) as nat) {
                        None => None,
                        Some(vp) => {
                            let v = vp.0;
                            let k = vp.1;
                            if i < k && k < s.len() {
                                if s[k as int] == ',' {
                                    match sp_members(s, (k + 1) as nat) {
                                        Some(q) => Some((seq![(key, v)] + q.0, q.1)),
                                        None => None,
                                    }
                                } else if s[k as int] == '}' {
                                    Some((seq![(key, v)], (k + 1) as nat))
                                } else {
                                    None
                                }
                            } else {
                                None
                            }
                        },
                    }
                } else {
                    None
                }
            },
        }
    }
}

/// Parses a whole text as one JSON value, with nothing before or after it.
pub open spec fn sp_parse_text(s: Seq<char>) -> Option<JVal> {
    match sp_value(s, 0) {
        Some(p) => if p.1 == s.len() {
            Some(p.0)
        } else {
            None
        },
        None => None,
    }
}

// ------------------------------------------------------------------
// The executable parser, proved equal to the parsing functions above.
// ------------------------------------------------------------------

fn is_digit_exec(c: char) -> (r: bool)
    ensures
        r == is_json_digit(c),
{
    let n = c as u32;
    0x30 <= n && n <= 0x39
}

fn hex_val(c: char) -> (r: Option<u32>)
    ensures
        r == sp_hex_val(c),
{
    let n = c as u32;
    if 0x30 <= n && n <= 0x39 {
        Some(n - 0x30)
    } else if 0x61 <= n && n <= 0x66 {
        Some(n - 0x57)
    } else if 0x41 <= n && n <= 0x46 {
        Some(n - 0x37)
    } else {
        None
    }
}

fn unescape_char(e: char) -> (r: Option<char>)
    ensures
        r == sp_unescape(e),
{
    if e == '"' { Some('"') }
    else if e == '\\' { Some('\\') }
    else if e == '/' { Some('/') }
    else if e == 'b' { Some('\u{8}') }
    else if e == 'f' { Some('\u{c}') }
    else if e == 'n' { Some('\n') }
    else if e == 'r' { Some('\r') }
    else if e == 't' { Some('\t') }
    else { None }
}

/// Relies on `char::from_u32`: `Some` exactly for Unicode scalar values,
/// and the returned character carries the given code.
#[verifier::external_body]
fn char_from_u32(n: u32) -> (r: Option<char>)
    ensures
        r matches Some(c) ==> c as u32 == n,
        (r is Some) == is_scalar_code(n),
{
    char::from_u32(n)
}

/// Appending an element extends the element values by the element's value.
pub(crate) proof fn lemma_jvals_push(a_old: Vec<JsonValue>, a_new: Vec<JsonValue>, x: JsonValue)
    requires
        a_new@ == a_old@.push(x),
    ensures
        jvals_of(a_new, 0) == jvals_of(a_old, 0).push(jval_of(x)),
{
    lemma_jvals_of(a_old, 0);
    lemma_jvals_of(a_new, 0);
    assert(jvals_of(a_new, 0) =~= jvals_of(a_old, 0).push(jval_of(x)));
}

/// Appending a member extends the member values by the member's value.
pub(crate) proof fn lemma_jkvs_push(o_old: Vec<(String, JsonValue)>, o_new: Vec<(String, JsonValue)>,
    m: (String, JsonValue))
    requires
        o_new@ == o_old@.push(m),
    ensures
        jkvs_of(o_new, 0) == jkvs_of(o_old, 0).push(jkv_of(m)),
{
    lemma_jkvs_of(o_old, 0);
    lemma_jkvs_of(o_new, 0);
    assert(jkvs_of(o_new, 0) =~= jkvs_of(o_old, 0).push(jkv_of(m)));
}

/// Parses a string literal body; mirrors `sp_string_body` exactly.
fn parse_string_body(s: &Vec<char>, start: usize) -> (r: Option<(Vec<char>, usize)>)
    requires
        start <= s@.len(),
    ensures
        (r is Some) == (sp_string_body(s@, start as nat) is Some),
        r matches Some(p) ==> sp_string_body(s@, start as nat) == Some((p.0@, p.1 as nat))
            && start < p.1 <= s@.len(),
{
    let mut buf: Vec<char> = Vec::new();
    let mut cur: usize = start;
    loop
        invariant
            start <= cur <= s@.len(),
            sp_string_body(s@, cur as nat) matches Some(p) ==>
                sp_string_body(s@, start as nat) == Some((buf@ + p.0, p.1)),
            (sp_string_body(s@, cur as nat) is None) ==>
                (sp_string_body(s@, start as nat) is None),
        decreases s@.len() - cur,
    {
        if cur >= s.len() {
            return None;
        }
        let c = s[cur];
        if c == '"' {
            proof {
                assert(buf@ + Seq::<char>::empty() =~= buf@);
            }
            return Some((buf, cur + 1));
        } else if c == '\\' {
            if cur + 1 >= s.len() {
                return None;
            }
            let e = s[cur + 1];
            let ghost buf0 = buf@;
            let ghost cur0 = cur as nat;
            if e == 'u' {
                if s.len() - cur < 6 {
                    return None;
                }
                let h0 = hex_val(s[cur + 2]);
                let h1 = hex_val(s[cur + 3]);
                let h2 = hex_val(s[cur + 4]);
                let h3 = hex_val(s[cur + 5]);
                if h0.is_none() || h1.is_none() || h2.is_none() || h3.is_none() {
                    return None;
                }
                let n: u32 = h0.unwrap() * 4096 + h1.unwrap() * 256 + h2.unwrap() * 16
                    + h3.unwrap();
                if !(n < 0xD800 || (0xE000 <= n && n <= 0x10FFFF)) {
                    return None;
                }
                match char_from_u32(n) {
                    Some(ch) => {
                        proof {
                            lemma_spec_char_of(n, ch);
                        }
                        buf.push(ch);
                        cur = cur + 6;
                        proof {
                            match sp_string_body(s@, cur as nat) {
                                Some(p) => {
                                    assert(buf0.push(ch) + p.0 =~= buf0 + (seq![ch] + p.0));
                                },
                                None => {},
                            }
                        }
                    },
                    None => {
                        // The code was checked to be a scalar value just
                        // above, so the conversion cannot refuse it.
                        proof {
                            assert(false);
                        }
                        return None;
                    },
                }
            } else {
                match unescape_char(e) {
                    Some(ch) => {
                        buf.push(ch);
                        cur = cur + 2;
                        proof {
                            match sp_string_body(s@, cur as nat) {
                                Some(p) => {
                                    assert(buf0.push(ch) + p.0 =~= buf0 + (seq![ch] + p.0));
                                },
                                None => {},
                            }
                        }
                    },
                    None => {
                        return None;
                    },
                }
            }
        } else if (c as u32) < 0x20 {
            return None;
        } else {
            let ghost buf0 = buf@;
            buf.push(c);
            cur = cur + 1;
            proof {
                match sp_string_body(s@, cur as nat) {
                    Some(p) => {
                        assert(buf0.push(c) + p.0 =~= buf0 + (seq![c] + p.0));
                    },
                    None => {},
                }
            }
        }
    }
}

/// The first position at or after `from` holding no decimal digit.
fn digit_run_end(s: &Vec<char>, from: usize) -> (r: usize)
    requires
        from <= s@.len(),
    ensures
        r as nat == sp_digit_run_end(s@, from as nat),
        from <= r <= s@.len(),
        forall|k: int| from <= k < r ==> is_json_digit(#[trigger] s@[k]),
        r == s@.len() || !is_json_digit(s@[r as int]),
{
    let mut end: usize = from;
    loop
        invariant
            from <= end <= s@.len(),
            forall|k: int| from <= k < end ==> is_json_digit(#[trigger] s@[k]),
        ensures
            from <= end <= s@.len(),
            forall|k: int| from <= k < end ==> is_json_digit(#[trigger] s@[k]),
            end == s@.len() || !is_json_digit(s@[end as int]),
        decreases s@.len() - end,
    {
        if end >= s.len() {
            break;
        }
        if !is_digit_exec(s[end]) {
            break;
        }
        end = end + 1;
    }
    proof {
        lemma_run_end(s@, from as nat, end as nat);
    }
    end
}

/// Parses an exponent; mirrors `sp_exp_tail` exactly.
fn exp_tail(s: &Vec<char>, j: usize) -> (r: Option<usize>)
    requires
        j < s@.len(),
    ensures
        (r is Some) == (sp_exp_tail(s@, j as nat) is Some),
        r matches Some(e) ==> sp_exp_tail(s@, j as nat) == Some(e as nat) && j < e <= s@.len(),
{
    let slen = s.len();
    let k = j + 1;
    let k2: usize = if k < slen {
        let c = s[k];
        if c == '+' || c == '-' {
            k + 1
        } else {
            k
        }
    } else {
        k
    };
    let ee = digit_run_end(s, k2);
    if ee == k2 {
        None
    } else {
        Some(ee)
    }
}

/// Parses a number's fraction and exponent tail; mirrors `sp_num_tail`.
fn num_tail(s: &Vec<char>, j: usize) -> (r: Option<usize>)
    requires
        j < s@.len(),
    ensures
        (r is Some) == (sp_num_tail(s@, j as nat) is Some),
        r matches Some(e) ==> sp_num_tail(s@, j as nat) == Some(e as nat) && j < e <= s@.len(),
{
    let slen = s.len();
    if s[j] == '.' {
        let fe = digit_run_end(s, j + 1);
        if fe == j + 1 {
            return None;
        }
        if fe < slen {
            let c = s[fe];
            if c == 'e' || c == 'E' {
                return exp_tail(s, fe);
            }
        }
        Some(fe)
    } else {
        exp_tail(s, j)
    }
}

/// Parses a number; mirrors `sp_number` exactly. An integer becomes an
/// `Int`; a fractional or exponent form is carried as its exact text.
fn parse_number(s: &Vec<char>, i: usize) -> (r: Option<(JsonValue, usize)>)
    requires
        i < s@.len(),
        s@[i as int] == '-' || is_json_digit(s@[i as int]),
    ensures
        (r is Some) == (sp_number(s@, i as nat) is Some),
        r matches Some(p) ==> sp_number(s@, i as nat) == Some((p.0@, p.1 as nat))
            && i < p.1 <= s@.len(),
{
    let slen = s.len();
    let neg = s[i] == '-';
    let d0: usize = if neg { i + 1 } else { i };
    if d0 >= slen {
        return None;
    }
    if !is_digit_exec(s[d0]) {
        return None;
    }
    let iend = digit_run_end(s, d0);
    if s[d0] == '0' && iend > d0 + 1 {
        return None;
    }
    if iend < slen {
        let c = s[iend];
        if c == '.' || c == 'e' || c == 'E' {
            match num_tail(s, iend) {
                Some(end) => {
                    let mut lex: Vec<char> = Vec::new();
                    let mut k: usize = i;
                    while k < end
                        invariant
                            i <= k <= end <= s@.len(),
                            lex@ == s@.subrange(i as int, k as int),
                        decreases end - k,
                    {
                        lex.push(s[k]);
                        proof {
                            assert(s@.subrange(i as int, k + 1int)
                                =~= s@.subrange(i as int, k as int).push(s@[k as int]));
                        }
                        k += 1;
                    }
                    let text = crate::text::string_of_chars(&lex);
                    return Some((JsonValue::Num(text), end));
                },
                None => {
                    return None;
                },
            }
        }
    }
    if iend - d0 > 19 {
        return None;
    }
    let mut val: u64 = 0;
    let mut k: usize = d0;
    while k < iend
        invariant
            d0 <= k <= iend <= s@.len(),
            iend - d0 <= 19,
            iend as nat == sp_digit_run_end(s@, d0 as nat),
            forall|q: int| d0 <= q < iend ==> is_json_digit(#[trigger] s@[q]),
            val == sp_digits_val(s@, d0 as nat, k as nat),
        decreases iend - k,
    {
        proof {
            lemma_digits_val_bound(s@, d0 as nat, k as nat);
            lemma_pow10_mono((k - d0) as nat, 18);
            reveal_with_fuel(pow10, 20);
            assert(pow10(18) == 1000000000000000000);
            assert(val < 1000000000000000000);
        }
        let d: u64 = (s[k] as u32 - 0x30) as u64;
        val = val * 10 + d;
        k = k + 1;
    }
    if neg {
        if val > 9223372036854775808u64 {
            return None;
        }
        let n: i64 = if val == 9223372036854775808u64 {
            i64::MIN
        } else {
            -(val as i64)
        };
        Some((JsonValue::Int(n), iend))
    } else {
        if val > 9223372036854775807u64 {
            return None;
        }
        Some((JsonValue::Int(val as i64), iend))
    }
}

/// Parses one JSON value; mirrors `sp_value` exactly.
#[verifier::loop_isolation(false)]
pub fn parse_value(s: &Vec<char>, i: usize) -> (r: Option<(JsonValue, usize)>)
    requires
        i <= s@.len(),
    ensures
        (r is Some) == (sp_value(s@, i as nat) is Some),
        r matches Some(p) ==> sp_value(s@, i as nat) == Some((p.0@, p.1 as nat))
            && i < p.1 <= s@.len(),
    decreases s@.len() - i,
{
    if i >= s.len() {
        return None;
    }
    let c = s[i];
    if c == 'n' {
        if s.len() - i >= 4 && s[i + 1] == 'u' && s[i + 2] == 'l' && s[i + 3] == 'l' {
            Some((JsonValue::Null, i + 4))
        } else {
            None
        }
    } else if c == 't' {
        if s.len() - i >= 4 && s[i + 1] == 'r' && s[i + 2] == 'u' && s[i + 3] == 'e' {
            Some((JsonValue::Bool(true), i + 4))
        } else {
            None
        }
    } else if c == 'f' {
        if s.len() - i >= 5 && s[i + 1] == 'a' && s[i + 2] == 'l' && s[i + 3] == 's'
            && s[i + 4] == 'e' {
            Some((JsonValue::Bool(false), i + 5))
        } else {
            None
        }
    } else if c == '"' {
        match parse_string_body(s, i + 1) {
            Some(p) => {
                let text = crate::text::string_of_chars(&p.0);
                Some((JsonValue::Str(text), p.1))
            },
            None => None,
        }
    } else if c == '-' || is_digit_exec(c) {
        match parse_number(s, i) {
            Some(p) => Some((p.0, p.1)),
            None => None,
        }
    } else if c == '[' {
        if s.len() - i >= 2 && s[i + 1] == ']' {
            let elems: Vec<JsonValue> = Vec::new();
            proof {
                assert(jvals_of(elems, 0) =~= Seq::<JVal>::empty());
            }
            return Some((JsonValue::Array(elems), i + 2));
        }
        let mut elems: Vec<JsonValue> = Vec::new();
        let mut cur: usize = i + 1;
        loop
            invariant
                i < cur <= s@.len(),
                sp_elems(s@, cur as nat) matches Some(p) ==>
                    sp_elems(s@, (i + 1) as nat) == Some((jvals_of(elems, 0) + p.0, p.1)),
                (sp_elems(s@, cur as nat) is None) ==>
                    (sp_elems(s@, (i + 1) as nat) is None),
            decreases s@.len() - cur,
        {
            let parsed = parse_value(s, cur);
            match parsed {
                None => {
                    return None;
                },
                Some(p) => {
                    let v = p.0;
                    let j = p.1;
                    if j >= s.len() {
                        return None;
                    }
                    let c2 = s[j];
                    if c2 == ',' {
                        let ghost elems0 = elems;
                        elems.push(v);
                        proof {
                            lemma_jvals_push(elems0, elems, v);
                            match sp_elems(s@, (j + 1) as nat) {
                                Some(q) => {
                                    assert(jvals_of(elems0, 0).push(jval_of(v)) + q.0
                                        =~= jvals_of(elems0, 0) + (seq![jval_of(v)] + q.0));
                                },
                                None => {},
                            }
                        }
                        cur = j + 1;
                    } else if c2 == ']' {
                        let ghost elems0 = elems;
                        elems.push(v);
                        proof {
                            lemma_jvals_push(elems0, elems, v);
                            assert(jvals_of(elems0, 0).push(jval_of(v))
                                =~= jvals_of(elems0, 0) + seq![jval_of(v)]);
                        }
                        return Some((JsonValue::Array(elems), j + 1));
                    } else {
                        return None;
                    }
                },
            }
        }
    } else if c == '{' {
        if s.len() - i >= 2 && s[i + 1] == '}' {
            let members: Vec<(String, JsonValue)> = Vec::new();
            proof {
                assert(jkvs_of(members, 0) =~= Seq::<(Seq<char>, JVal)>::empty());
            }
            return Some((JsonValue::Object(members), i + 2));
        }
        let mut members: Vec<(String, JsonValue)> = Vec::new();
        let mut cur: usize = i + 1;
        loop
            invariant
                i < cur <= s@.len(),
                sp_members(s@, cur as nat) matches Some(p) ==>
                    sp_members(s@, (i + 1) as nat) == Some((jkvs_of(members, 0) + p.0, p.1)),
                (sp_members(s@, cur as nat) is None) ==>
                    (sp_members(s@, (i + 1) as nat) is None),
            decreases s@.len() - cur,
        {
            if cur >= s.len() {
                return None;
            }
            if s[cur] != '"' {
                return None;
            }
            match parse_string_body(s, cur + 1) {
                None => {
                    return None;
                },
                Some(kp) => {
                    let key = crate::text::string_of_chars(&kp.0);
                    let j = kp.1;
                    if j >= s.len() {
                        return None;
                    }
                    if s[j] != ':' {
                        return None;
                    }
                    let parsed = parse_value(s, j + 1);
                    match parsed {
                        None => {
                            return None;
                        },
                        Some(vp) => {
                            let v = vp.0;
                            let k = vp.1;
                            if k >= s.len() {
                                return None;
                            }
                            let c2 = s[k];
                            if c2 == ',' {
                                let ghost members0 = members;
                                let entry = (key, v);
                                members.push(entry);
                                proof {
                                    lemma_jkvs_push(members0, members, entry);
                                    match sp_members(s@, (k + 1) as nat) {
                                        Some(q) => {
                                            assert(jkvs_of(members0, 0).push(jkv_of(entry)) + q.0
                                                =~= jkvs_of(members0, 0)
                                                    + (seq![jkv_of(entry)] + q.0));
                                        },
                                        None => {},
                                    }
                                }
                                cur = k + 1;
                            } else if c2 == '}' {
                                let ghost members0 = members;
                                let entry = (key, v);
                                members.push(entry);
                                proof {
                                    lemma_jkvs_push(members0, members, entry);
                                    assert(jkvs_of(members0, 0).push(jkv_of(entry))
                                        =~= jkvs_of(members0, 0) + seq![jkv_of(entry)]);
                                }
                                return Some((JsonValue::Object(members), k + 1));
                            } else {
                                return None;
                            }
                        },
                    }
                },
            }
        }
    } else {
        None
    }
}

/// Parses a whole character buffer as one JSON value.
pub fn parse_json_chars(s: &Vec<char>) -> (r: Option<JsonValue>)
    ensures
        (r is Some) == (sp_parse_text(s@) is Some),
        r matches Some(v) ==> sp_parse_text(s@) == Some(v@),
{
    match parse_value(s, 0) {
        Some(p) => {
            if p.1 == s.len() {
                Some(p.0)
            } else {
                None
            }
        },
        None => None,
    }
}

/// The canonical text of a value, as a string.
pub fn json_text(v: &JsonValue) -> (r: String)
    ensures
        r@ == spec_ser(v@),
{
    let chars = json_chars(v);
    crate::text::string_of_chars(&chars)
}

/// Parses a whole string as one JSON value.
pub fn parse_json_text(s: &str) -> (r: Option<JsonValue>)
    ensures
        (r is Some) == (sp_parse_text(s@) is Some),
        r matches Some(v) ==> sp_parse_text(s@) == Some(v@),
{
    let chars = crate::text::chars_of_str(s);
    parse_json_chars(&chars)
}

} // verus!

