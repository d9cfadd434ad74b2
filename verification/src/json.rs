//! JSON values and their one-line text.
//!
//! `Json` is the executable value type; `JVal` is the mathematical value that
//! contracts speak of. `enc` gives the one-line text of a value; the parser in
//! `crate::parse` accepts that text back.

use vstd::prelude::*;

verus! {

/// Mathematical JSON value.
pub enum JVal {
    Null,
    Bool(bool),
    Int(int),
    Str(Seq<char>),
    Arr(Seq<JVal>),
    Obj(Seq<(Seq<char>, JVal)>),
}

/// Executable JSON value. Numbers are 64-bit integers; object fields keep
/// their insertion order, so encoding is deterministic.
#[derive(Debug, PartialEq, Eq)]
pub enum Json {
    Null,
    Bool(bool),
    Int(i64),
    Str(String),
    Arr(Vec<Json>),
    Obj(Vec<(String, Json)>),
}

impl Json {
    /// The mathematical value this executable value stands for.
    pub open spec fn jv(self) -> JVal
        decreases self, 0int,
    {
        match self {
            Json::Null => JVal::Null,
            Json::Bool(b) => JVal::Bool(b),
            Json::Int(i) => JVal::Int(i as int),
            Json::Str(s) => JVal::Str(s@),
            Json::Arr(items) => JVal::Arr(jv_items(items@, 0)),
            Json::Obj(fields) => JVal::Obj(jv_fields(fields@, 0)),
        }
    }
}

/// The models of the array items from position `i` on.
pub open spec fn jv_items(items: Seq<Json>, i: int) -> Seq<JVal>
    decreases items, items.len() - i,
{
    if i < 0 || i >= items.len() {
        Seq::empty()
    } else {
        seq![items[i].jv()] + jv_items(items, i + 1)
    }
}

/// The models of the object fields from position `i` on.
pub open spec fn jv_fields(fields: Seq<(String, Json)>, i: int) -> Seq<(Seq<char>, JVal)>
    decreases fields, fields.len() - i,
{
    if i < 0 || i >= fields.len() {
        Seq::empty()
    } else {
        seq![(fields[i].0@, fields[i].1.jv())] + jv_fields(fields, i + 1)
    }
}

/// `jv_items` maps each item to its model, position by position.
pub proof fn lemma_jv_items(items: Seq<Json>, i: int)
    requires
        0 <= i <= items.len(),
    ensures
        jv_items(items, i).len() == items.len() - i,
        forall|k: int|
            i <= k < items.len() ==> jv_items(items, i)[k - i] == #[trigger] items[k].jv(),
    decreases items.len() - i,
{
    if i < items.len() {
        lemma_jv_items(items, i + 1);
    }
}

/// `jv_fields` maps each field to its model, position by position.
pub proof fn lemma_jv_fields(fields: Seq<(String, Json)>, i: int)
    requires
        0 <= i <= fields.len(),
    ensures
        jv_fields(fields, i).len() == fields.len() - i,
        forall|k: int|
            i <= k < fields.len() ==> jv_fields(fields, i)[k - i] == (
            #[trigger] fields[k].0@,
            fields[k].1.jv(),
            ),
    decreases fields.len() - i,
{
    if i < fields.len() {
        lemma_jv_fields(fields, i + 1);
    }
}

/// A mathematical value that some executable value can stand for: every
/// number fits in 64 signed bits.
pub open spec fn wf(v: JVal) -> bool
    decreases v,
{
    match v {
        JVal::Int(i) => i64::MIN <= i <= i64::MAX,
        JVal::Arr(items) => forall|i: int| 0 <= i < items.len() ==> wf(#[trigger] items[i]),
        JVal::Obj(fields) => forall|i: int| 0 <= i < fields.len() ==> wf(#[trigger] fields[i].1),
        _ => true,
    }
}

/// Every executable value stands for a well-formed mathematical one.
pub proof fn lemma_jv_wf(v: Json)
    ensures
        wf(v.jv()),
    decreases v,
{
    match v {
        Json::Arr(items) => {
            lemma_jv_items(items@, 0);
            let js = jv_items(items@, 0);
            assert forall|i: int| 0 <= i < js.len() implies wf(#[trigger] js[i]) by {
                assert(decreases_to!(v => items));
                assert(decreases_to!(items => items@[i]));
                lemma_jv_wf(items@[i]);
                assert(js[i] == items@[i].jv());
            }
            assert(wf(JVal::Arr(js)));
        },
        Json::Obj(fields) => {
            lemma_jv_fields(fields@, 0);
            let js = jv_fields(fields@, 0);
            assert forall|i: int| 0 <= i < js.len() implies wf(#[trigger] js[i].1) by {
                assert(decreases_to!(v => fields));
                assert(decreases_to!(fields => fields@[i]));
                lemma_jv_wf(fields@[i].1);
                assert(js[i] == (fields@[i].0@, fields@[i].1.jv()));
            }
            assert(wf(JVal::Obj(js)));
        },
        _ => {},
    }
}

/// The sixteen lower-case hexadecimal digit characters.
pub open spec fn hex_char(n: int) -> char {
    "0123456789abcdef"@[n]
}

/// Decimal text of a non-negative integer, most significant digit first.
pub open spec fn dec_text(n: int) -> Seq<char>
    decreases n,
{
    if n < 10 {
        seq![hex_char(n)]
    } else {
        dec_text(n / 10).push(hex_char(n % 10))
    }
}

/// Text of one 64-bit integer.
pub open spec fn enc_int(i: int) -> Seq<char> {
    if i < 0 {
        seq!['-'] + dec_text(-i)
    } else {
        dec_text(i)
    }
}

/// How one character appears inside a quoted string.
pub open spec fn esc_char(c: char) -> Seq<char> {
    if c == '"' {
        seq!['\\', '"']
    } else if c == '\\' {
        seq!['\\', '\\']
    } else if c == '\n' {
        seq!['\\', 'n']
    } else if c == '\r' {
        seq!['\\', 'r']
    } else if c == '\t' {
        seq!['\\', 't']
    } else if (c as u32) < 32 {
        seq!['\\', 'u', '0', '0', hex_char((c as u32) as int / 16), hex_char(
            (c as u32) as int % 16,
        )]
    } else {
        seq![c]
    }
}

/// The escaped text of the characters of `s` from position `i` on.
pub open spec fn esc_text(s: Seq<char>, i: int) -> Seq<char>
    decreases s.len() - i,
{
    if i < 0 || i >= s.len() {
        Seq::empty()
    } else {
        esc_char(s[i]) + esc_text(s, i + 1)
    }
}

/// Text of a quoted, escaped string.
pub open spec fn enc_str(s: Seq<char>) -> Seq<char> {
    seq!['"'] + esc_text(s, 0) + seq!['"']
}

/// One-line text of a mathematical JSON value: no spaces, object fields in
/// their stored order.
pub open spec fn enc(v: JVal) -> Seq<char>
    decreases v, 0int,
{
    match v {
        JVal::Null => "null"@,
        JVal::Bool(b) => if b {
            "true"@
        } else {
            "false"@
        },
        JVal::Int(i) => enc_int(i),
        JVal::Str(s) => enc_str(s),
        JVal::Arr(items) => seq!['['] + enc_items(items, 0) + seq![']'],
        JVal::Obj(fields) => seq!['{'] + enc_fields(fields, 0) + seq!['}'],
    }
}

/// Comma-separated text of the items of an array from position `i` on.
pub open spec fn enc_items(items: Seq<JVal>, i: int) -> Seq<char>
    decreases items, items.len() - i,
{
    if i < 0 || i >= items.len() {
        Seq::empty()
    } else if i == items.len() - 1 {
        enc(items[i])
    } else {
        enc(items[i]) + seq![','] + enc_items(items, i + 1)
    }
}

/// Comma-separated text of the fields of an object from position `i` on.
pub open spec fn enc_fields(fields: Seq<(Seq<char>, JVal)>, i: int) -> Seq<char>
    decreases fields, fields.len() - i,
{
    if i < 0 || i >= fields.len() {
        Seq::empty()
    } else if i == fields.len() - 1 {
        enc_str(fields[i].0) + seq![':'] + enc(fields[i].1)
    } else {
        enc_str(fields[i].0) + seq![':'] + enc(fields[i].1) + seq![','] + enc_fields(
            fields,
            i + 1,
        )
    }
}

/// One lower-case hexadecimal digit as a one-character string slice.
fn hex_char_str(n: u8) -> (out: &'static str)
    requires
        n < 16,
    ensures
        out@ =~= seq![hex_char(n as int)],
{
    let digits = "0123456789abcdef";
    proof {
        reveal_strlit("0123456789abcdef");
    }
    digits.substring_char(n as usize, n as usize + 1)
}

/// Decimal text of a 64-bit unsigned integer.
fn encode_u64_dec(n: u64) -> (out: String)
    ensures
        out@ == dec_text(n as int),
    decreases n,
{
    if n < 10 {
        let s = hex_char_str(n as u8);
        let out = String::from_str(s);
        assert(out@ =~= dec_text(n as int));
        out
    } else {
        let mut out = encode_u64_dec(n / 10);
        let d = hex_char_str((n % 10) as u8);
        out.append(d);
        assert(out@ =~= dec_text(n as int));
        out
    }
}

/// Text of a signed 64-bit integer.
fn encode_i64(i: i64) -> (out: String)
    ensures
        out@ == enc_int(i as int),
{
    if i < 0 {
        let m: u64 = (-(i as i128)) as u64;
        let mut out = String::from_str("-");
        let digits = encode_u64_dec(m);
        out.append(digits.as_str());
        proof {
            reveal_strlit("-");
        }
        assert(out@ =~= enc_int(i as int));
        out
    } else {
        encode_u64_dec(i as u64)
    }
}

/// Quoted, escaped text of a string.
fn encode_string(s: &str) -> (out: String)
    ensures
        out@ == enc_str(s@),
{
    let mut out = String::from_str("\"");
    proof {
        reveal_strlit("\"");
        lemma_esc_prefix(s@, 0);
        assert(out@ =~= seq!['"'] + esc_text(s@, 0).subrange(
            0,
            esc_text(s@, 0).len() - esc_text(s@, 0).len(),
        ));
    }
    let n = s.unicode_len();
    let mut i: usize = 0;
    while i < n
        invariant
            n == s@.len(),
            i <= n,
            out@ == seq!['"'] + esc_text(s@, 0).subrange(
                0,
                esc_text(s@, 0).len() - esc_text(s@, i as int).len(),
            ),
        decreases n - i,
    {
        proof {
            lemma_esc_prefix(s@, i as int);
            lemma_esc_text_split(s@, i as int);
        }
        let ghost pre = out@;
        let c = s.get_char(i);
        if c == '"' {
            out.append("\\\"");
            proof {
                reveal_strlit("\\\"");
                assert(out@ =~= pre + esc_char(c));
            }
        } else if c == '\\' {
            out.append("\\\\");
            proof {
                reveal_strlit("\\\\");
                assert(out@ =~= pre + esc_char(c));
            }
        } else if c == '\n' {
            out.append("\\n");
            proof {
                reveal_strlit("\\n");
                assert(out@ =~= pre + esc_char(c));
            }
        } else if c == '\r' {
            out.append("\\r");
            proof {
                reveal_strlit("\\r");
                assert(out@ =~= pre + esc_char(c));
            }
        } else if c == '\t' {
            out.append("\\t");
            proof {
                reveal_strlit("\\t");
                assert(out@ =~= pre + esc_char(c));
            }
        } else if (c as u32) < 32 {
            out.append("\\u00");
            let hi = hex_char_str(((c as u32) / 16) as u8);
            out.append(hi);
            let lo = hex_char_str(((c as u32) % 16) as u8);
            out.append(lo);
            proof {
                reveal_strlit("\\u00");
                assert(out@ =~= pre + esc_char(c));
            }
        } else {
            let piece = s.substring_char(i, i + 1);
            out.append(piece);
            proof {
                assert(piece@ =~= seq![s@[i as int]]);
                assert(out@ =~= pre + esc_char(c));
            }
        }
        proof {
            lemma_esc_step(s@, i as int, out@);
        }
        i = i + 1;
    }
    proof {
        lemma_esc_prefix(s@, n as int);
        assert(esc_text(s@, n as int) =~= Seq::<char>::empty());
        assert(out@ =~= seq!['"'] + esc_text(s@, 0));
    }
    out.append("\"");
    proof {
        reveal_strlit("\"");
        assert(out@ =~= enc_str(s@));
    }
    out
}

/// The escaped text from `i` on is the escape of `s[i]` followed by the rest.
pub proof fn lemma_esc_text_split(s: Seq<char>, i: int)
    requires
        0 <= i < s.len(),
    ensures
        esc_text(s, i) == esc_char(s[i]) + esc_text(s, i + 1),
        esc_text(s, i).len() == esc_char(s[i]).len() + esc_text(s, i + 1).len(),
        esc_text(s, i).len() >= esc_text(s, i + 1).len(),
{
}

/// After appending the escape of `s[i]`, the produced prefix has grown by it.
proof fn lemma_esc_step(s: Seq<char>, i: int, produced: Seq<char>)
    requires
        0 <= i < s.len(),
        produced == seq!['"'] + esc_text(s, 0).subrange(
            0,
            esc_text(s, 0).len() - esc_text(s, i).len(),
        ) + esc_char(s[i]),
    ensures
        produced == seq!['"'] + esc_text(s, 0).subrange(
            0,
            esc_text(s, 0).len() - esc_text(s, i + 1).len(),
        ),
{
    lemma_esc_prefix(s, i);
    lemma_esc_prefix(s, i + 1);
    lemma_esc_text_split(s, i);
    let full = esc_text(s, 0);
    let a = full.len() - esc_text(s, i).len();
    let b = full.len() - esc_text(s, i + 1).len();
    assert(full.subrange(0, a) + esc_char(s[i]) =~= full.subrange(0, b)) by {
        assert(full == full.subrange(0, a) + esc_text(s, i));
        assert(full == full.subrange(0, b) + esc_text(s, i + 1));
        assert(esc_text(s, i) == esc_char(s[i]) + esc_text(s, i + 1));
    }
    assert(produced =~= seq!['"'] + full.subrange(0, b));
}

/// The whole escaped text is the part before `i` followed by the part from `i`.
proof fn lemma_esc_prefix(s: Seq<char>, i: int)
    requires
        0 <= i <= s.len(),
    ensures
        esc_text(s, i).len() <= esc_text(s, 0).len(),
        esc_text(s, 0) == esc_text(s, 0).subrange(
            0,
            esc_text(s, 0).len() - esc_text(s, i).len(),
        ) + esc_text(s, i),
    decreases i,
{
    if i == 0 {
        assert(esc_text(s, 0) =~= esc_text(s, 0).subrange(0, 0) + esc_text(s, 0));
    } else {
        lemma_esc_prefix(s, i - 1);
        lemma_esc_text_split(s, i - 1);
        let full = esc_text(s, 0);
        let a = full.len() - esc_text(s, i - 1).len();
        let b = full.len() - esc_text(s, i).len();
        assert(full =~= full.subrange(0, a) + (esc_char(s[i - 1]) + esc_text(s, i)));
        assert(full.subrange(0, b) =~= full.subrange(0, a) + esc_char(s[i - 1]));
        assert(full =~= full.subrange(0, b) + esc_text(s, i));
    }
}

/// One-line text of an executable JSON value; equal to `enc` of its model.
#[verifier::loop_isolation(false)]
pub fn encode_json(v: &Json) -> (out: String)
    ensures
        out@ == enc(v.jv()),
    decreases v,
{
    match v {
        Json::Null => {
            let out = String::from_str("null");
            out
        },
        Json::Bool(b) => {
            let out = if *b {
                String::from_str("true")
            } else {
                String::from_str("false")
            };
            out
        },
        Json::Int(i) => encode_i64(*i),
        Json::Str(s) => encode_string(s.as_str()),
        Json::Arr(items) => {
            let ghost jitems = jv_items(items@, 0);
            proof {
                lemma_jv_items(items@, 0);
            }
            let mut out = String::from_str("[");
            proof {
                reveal_strlit("[");
                assert(out@ + enc_items(jitems, 0) + seq![']'] =~= enc(JVal::Arr(jitems)));
            }
            let n = items.len();
            let mut i: usize = 0;
            while i < n
                invariant
                    n == items.len(),
                    i <= n,
                    jitems == jv_items(items@, 0),
                    jitems.len() == n,
                    forall|k: int| 0 <= k < n ==> jitems[k] == #[trigger] items@[k].jv(),
                    out@ + enc_items(jitems, i as int) + seq![']'] =~= enc(JVal::Arr(jitems)),
                decreases n - i,
            {
                proof {
                    assert(*v == Json::Arr(*items));
                    assert(decreases_to!(*v => (*v)->Arr_0));
                    assert(decreases_to!((*v)->Arr_0 => (*v)->Arr_0[i as int]));
                }
                let piece = encode_json(&items[i]);
                out.append(piece.as_str());
                if i + 1 < n {
                    out.append(",");
                    proof {
                        reveal_strlit(",");
                    }
                }
                assert(out@ + enc_items(jitems, i as int + 1) + seq![']'] =~= enc(
                    JVal::Arr(jitems),
                ));
                i = i + 1;
            }
            out.append("]");
            proof {
                reveal_strlit("]");
                assert(out@ =~= enc(v.jv()));
            }
            out
        },
        Json::Obj(fields) => {
            let ghost jfields = jv_fields(fields@, 0);
            proof {
                lemma_jv_fields(fields@, 0);
            }
            let mut out = String::from_str("{");
            proof {
                reveal_strlit("{");
                assert(out@ + enc_fields(jfields, 0) + seq!['}'] =~= enc(JVal::Obj(jfields)));
            }
            let n = fields.len();
            let mut i: usize = 0;
            while i < n
                invariant
                    n == fields.len(),
                    i <= n,
                    jfields == jv_fields(fields@, 0),
                    jfields.len() == n,
                    forall|k: int|
                        0 <= k < n ==> jfields[k] == (#[trigger] fields@[k].0@, fields@[k].1.jv()),
                    out@ + enc_fields(jfields, i as int) + seq!['}'] =~= enc(JVal::Obj(jfields)),
                decreases n - i,
            {
                let key = encode_string(fields[i].0.as_str());
                out.append(key.as_str());
                out.append(":");
                proof {
                    reveal_strlit(":");
                    assert(*v == Json::Obj(*fields));
                    assert(decreases_to!(*v => (*v)->Obj_0));
                    assert(decreases_to!((*v)->Obj_0 => (*v)->Obj_0[i as int]));
                    assert(decreases_to!((*v)->Obj_0[i as int] => (*v)->Obj_0[i as int].1));
                }
                let piece = encode_json(&fields[i].1);
                out.append(piece.as_str());
                if i + 1 < n {
                    out.append(",");
                    proof {
                        reveal_strlit(",");
                    }
                }
                assert(out@ + enc_fields(jfields, i as int + 1) + seq!['}'] =~= enc(
                    JVal::Obj(jfields),
                ));
                i = i + 1;
            }
            out.append("}");
            proof {
                reveal_strlit("}");
                assert(out@ =~= enc(v.jv()));
            }
            out
        },
    }
}

/// A structurally fresh copy of a value, standing for the same model.
#[verifier::loop_isolation(false)]
pub fn clone_json(v: &Json) -> (out: Json)
    ensures
        out.jv() == v.jv(),
    decreases v,
{
    match v {
        Json::Null => Json::Null,
        Json::Bool(b) => Json::Bool(*b),
        Json::Int(i) => Json::Int(*i),
        Json::Str(s) => Json::Str(s.clone()),
        Json::Arr(items) => {
            let mut out: Vec<Json> = Vec::new();
            let n = items.len();
            let mut i: usize = 0;
            while i < n
                invariant
                    n == items.len(),
                    i <= n,
                    out@.len() == i,
                    forall|k: int| 0 <= k < i ==> (#[trigger] out@[k]).jv() == items@[k].jv(),
                decreases n - i,
            {
                proof {
                    assert(decreases_to!(*v => (*v)->Arr_0));
                    assert(decreases_to!((*v)->Arr_0 => (*v)->Arr_0[i as int]));
                }
                let piece = clone_json(&items[i]);
                out.push(piece);
                i = i + 1;
            }
            proof {
                lemma_jv_items(out@, 0);
                lemma_jv_items(items@, 0);
                assert forall|k: int| 0 <= k < n implies jv_items(out@, 0)[k] == jv_items(
                    items@,
                    0,
                )[k] by {
                    assert(jv_items(out@, 0)[k] == out@[k].jv());
                    assert(jv_items(items@, 0)[k] == items@[k].jv());
                }
                assert(jv_items(out@, 0) =~= jv_items(items@, 0));
            }
            Json::Arr(out)
        },
        Json::Obj(fields) => {
            let mut out: Vec<(String, Json)> = Vec::new();
            let n = fields.len();
            let mut i: usize = 0;
            while i < n
                invariant
                    n == fields.len(),
                    i <= n,
                    out@.len() == i,
                    forall|k: int|
                        0 <= k < i ==> (#[trigger] out@[k]).0@ == fields@[k].0@ && out@[k].1.jv()
                            == fields@[k].1.jv(),
                decreases n - i,
            {
                proof {
                    assert(decreases_to!(*v => (*v)->Obj_0));
                    assert(decreases_to!((*v)->Obj_0 => (*v)->Obj_0[i as int]));
                    assert(decreases_to!((*v)->Obj_0[i as int] => (*v)->Obj_0[i as int].1));
                }
                let key = fields[i].0.clone();
                let piece = clone_json(&fields[i].1);
                out.push((key, piece));
                i = i + 1;
            }
            proof {
                lemma_jv_fields(out@, 0);
                lemma_jv_fields(fields@, 0);
                assert forall|k: int| 0 <= k < n implies jv_fields(out@, 0)[k] == jv_fields(
                    fields@,
                    0,
                )[k] by {
                    assert(jv_fields(out@, 0)[k] == (out@[k].0@, out@[k].1.jv()));
                    assert(jv_fields(fields@, 0)[k] == (fields@[k].0@, fields@[k].1.jv()));
                }
                assert(jv_fields(out@, 0) =~= jv_fields(fields@, 0));
            }
            Json::Obj(out)
        },
    }
}

} // verus!
