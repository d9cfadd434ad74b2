//! Laws of the codec itself: encoding then parsing gives the value back for
//! every well-formed value, and so for every response the engine emits; and
//! an encoded value never holds a raw newline, so one value is one line.

use vstd::prelude::*;
use crate::json::{JVal, wf, enc, enc_int, enc_str, enc_items, enc_fields, esc_char, esc_text,
    dec_text, hex_char, lemma_esc_text_split, lemma_jv_wf};
use crate::parse::{p_val, p_items, p_fields, p_str, p_int, parse_text, skip_ws, digits_end,
    digits_val, pow10, is_ws, is_digit, is_hex, digit_val, hex_val, code_char};
use crate::codec::{Response, resp_jv};

verus! {

/// The code of each hexadecimal digit character.
proof fn lemma_hex_char(d: int)
    requires
        0 <= d < 16,
    ensures
        hex_char(d) as u32 == if d < 10 {
            48 + d
        } else {
            87 + d
        },
        is_hex(hex_char(d)),
        hex_val(hex_char(d)) == d,
        d < 10 ==> is_digit(hex_char(d)) && digit_val(hex_char(d)) == d,
{
    reveal_strlit("0123456789abcdef");
}

/// Decimal text is non-empty and all digits.
proof fn lemma_dec_text(n: int)
    requires
        n >= 0,
    ensures
        dec_text(n).len() >= 1,
        forall|k: int| 0 <= k < dec_text(n).len() ==> is_digit(#[trigger] dec_text(n)[k]),
        n >= 1 ==> dec_text(n)[0] != '0',
    decreases n,
{
    if n < 10 {
        lemma_hex_char(n);
    } else {
        lemma_dec_text(n / 10);
        lemma_hex_char(n % 10);
        assert forall|k: int| 0 <= k < dec_text(n).len() implies is_digit(
            #[trigger] dec_text(n)[k],
        ) by {
            if k < dec_text(n).len() - 1 {
                assert(dec_text(n)[k] == dec_text(n / 10)[k]);
            }
        }
        assert(dec_text(n)[0] == dec_text(n / 10)[0]);
    }
}

/// A digit run with a non-digit (or the end) just after it ends exactly
/// there.
proof fn lemma_digits_end_run(s: Seq<char>, i: int, j: int)
    requires
        0 <= i <= j <= s.len(),
        forall|k: int| i <= k < j ==> is_digit(#[trigger] s[k]),
        j == s.len() || !is_digit(s[j]),
    ensures
        digits_end(s, i) == j,
    decreases j - i,
{
    if i < j {
        lemma_digits_end_run(s, i + 1, j);
    }
}

/// The digits of `dec_text(n)` read back as `n`.
proof fn lemma_digits_val_embed(n: int, s: Seq<char>, i: int)
    requires
        n >= 0,
        0 <= i,
        i + dec_text(n).len() <= s.len(),
        s.subrange(i, i + dec_text(n).len()) == dec_text(n),
    ensures
        digits_val(s, i, i + dec_text(n).len()) == n,
    decreases n,
{
    let l = dec_text(n).len() as int;
    if n < 10 {
        lemma_hex_char(n);
        assert(s[i] == dec_text(n)[0]);
        assert(digits_val(s, i, i) == 0);
    } else {
        lemma_hex_char(n % 10);
        let lp = dec_text(n / 10).len() as int;
        assert(lp == l - 1);
        assert(s.subrange(i, i + lp) =~= dec_text(n / 10)) by {
            assert forall|k: int| 0 <= k < lp implies #[trigger] s.subrange(i, i + lp)[k] == dec_text(
                n / 10,
            )[k] by {
                assert(s[i + k] == dec_text(n)[k]);
                assert(dec_text(n)[k] == dec_text(n / 10)[k]);
            }
        }
        lemma_digits_val_embed(n / 10, s, i);
        assert(s[i + l - 1] == dec_text(n)[l - 1]);
        assert(dec_text(n)[l - 1] == hex_char(n % 10));
        assert(digits_val(s, i, i + l) == digits_val(s, i, i + l - 1) * 10 + digit_val(
            s[i + l - 1],
        ));
        assert(digits_val(s, i, i + l) == (n / 10) * 10 + n % 10);
    }
}

/// `pow10` grows with its exponent.
proof fn lemma_pow10_grows(a: nat, b: nat)
    requires
        a <= b,
    ensures
        1 <= pow10(a) <= pow10(b),
    decreases b,
{
    if a < b {
        lemma_pow10_grows(a, (b - 1) as nat);
    } else if a > 0 {
        lemma_pow10_grows((a - 1) as nat, (b - 1) as nat);
    }
}

/// A number below `pow10(k)` prints in at most `k` digits.
proof fn lemma_dec_len_bound(n: int, k: nat)
    requires
        0 <= n < pow10(k),
        k >= 1,
    ensures
        dec_text(n).len() <= k,
    decreases k,
{
    if n < 10 {
    } else {
        assert(pow10(0) == 1 && pow10(1) == 10 * pow10(0));
        assert(k >= 2) by {
            if k < 2 {
                assert(k == 1);
            }
        }
        assert(pow10(k) == 10 * pow10((k - 1) as nat));
        assert(n / 10 < pow10((k - 1) as nat));
        lemma_dec_len_bound(n / 10, (k - 1) as nat);
    }
}

/// Parsing a number out of its own text gives the number back.
proof fn lemma_rt_int(m: int, s: Seq<char>, i: int)
    requires
        i64::MIN <= m <= i64::MAX,
        0 <= i,
        i + enc_int(m).len() <= s.len(),
        s.subrange(i, i + enc_int(m).len()) == enc_int(m),
        i + enc_int(m).len() == s.len() || !is_digit(s[i + enc_int(m).len()]),
    ensures
        p_int(s, i) == Some((JVal::Int(m), i + enc_int(m).len())),
{
    let l = enc_int(m).len() as int;
    reveal_with_fuel(pow10, 21);
    assert(pow10(19) == 10_000_000_000_000_000_000);
    if m >= 0 {
        lemma_dec_text(m);
        assert forall|k: int| i <= k < i + l implies is_digit(#[trigger] s[k]) by {
            assert(s[k] == dec_text(m)[k - i]);
        }
        assert(s[i] == dec_text(m)[0]);
        assert(s[i] != '-');
        lemma_digits_end_run(s, i, i + l);
        lemma_dec_len_bound(m, 19);
        lemma_digits_val_embed(m, s, i);
        if m >= 1 {
            assert(s[i] != '0');
        } else {
            assert(l == 1);
        }
    } else {
        let n = -m;
        lemma_dec_text(n);
        assert(s[i] == enc_int(m)[0]);
        assert(s[i] == '-');
        assert(s.subrange(i + 1, i + l) =~= dec_text(n)) by {
            assert forall|k: int| 0 <= k < l - 1 implies #[trigger] s.subrange(i + 1, i + l)[k] == dec_text(
                n,
            )[k] by {
                assert(s[i + 1 + k] == enc_int(m)[1 + k]);
            }
        }
        assert forall|k: int| i + 1 <= k < i + l implies is_digit(#[trigger] s[k]) by {
            assert(s[k] == dec_text(n)[k - i - 1]);
        }
        assert(is_digit(s[i + 1]));
        lemma_digits_end_run(s, i + 1, i + l);
        assert(n <= 0x8000_0000_0000_0000);
        lemma_dec_len_bound(n, 19);
        lemma_digits_val_embed(n, s, i + 1);
        assert(digits_val(s, i + 1, i + l) == n);
        if n >= 1 {
            assert(s[i + 1] != '0');
        } else {
            assert(l == 2);
        }
    }
}

/// A character below 256 is exactly the `code_char` of its code.
proof fn lemma_char_of_code(c: char, n: int)
    requires
        0 <= n < 256,
        c as u32 == n,
    ensures
        code_char(n) == c,
{
    assert(code_char(n) as u32 == n);
}

/// Parsing a quoted string out of its own escaped text gives the string
/// back.
proof fn lemma_rt_str(t: Seq<char>, k: int, s: Seq<char>, i: int)
    requires
        0 <= k <= t.len(),
        0 <= i,
        i + esc_text(t, k).len() + 1 <= s.len(),
        s.subrange(i, i + esc_text(t, k).len()) == esc_text(t, k),
        s[i + esc_text(t, k).len()] == '"',
    ensures
        p_str(s, i) == Some((t.subrange(k, t.len() as int), i + esc_text(t, k).len() + 1)),
    decreases t.len() - k,
{
    let el = esc_text(t, k).len() as int;
    if k == t.len() {
        assert(el == 0);
        assert(s[i] == '"');
        assert(t.subrange(k, t.len() as int) =~= Seq::<char>::empty());
    } else {
        lemma_esc_text_split(t, k);
        let c = t[k];
        let e = esc_char(c);
        let rest = esc_text(t, k + 1);
        let i2 = i + e.len();
        assert forall|q: int| 0 <= q < e.len() implies s[i + q] == e[q] by {
            assert(s.subrange(i, i + el)[q] == esc_text(t, k)[q]);
            assert(s.subrange(i, i + el)[q] == s[i + q]);
            assert(esc_text(t, k)[q] == (e + rest)[q]);
        }
        assert(s.subrange(i2, i2 + rest.len()) =~= rest) by {
            assert forall|q: int| 0 <= q < rest.len() implies #[trigger] s.subrange(i2, i2 + rest.len())[q]
                == rest[q] by {
                assert(s.subrange(i, i + el)[e.len() + q] == esc_text(t, k)[e.len() + q]);
                assert(s.subrange(i, i + el)[e.len() + q] == s[i + (e.len() + q)]);
                assert(esc_text(t, k)[e.len() + q] == (e + rest)[e.len() + q]);
                assert(s.subrange(i2, i2 + rest.len())[q] == s[i2 + q]);
                assert(i2 + q == i + (e.len() + q));
            }
        }
        assert(s[i2 + rest.len()] == '"');
        lemma_rt_str(t, k + 1, s, i2);
        assert(seq![c] + t.subrange(k + 1, t.len() as int) =~= t.subrange(k, t.len() as int));
        if c == '"' || c == '\\' || c == '\n' || c == '\r' || c == '\t' {
            assert(s[i + 0] == e[0] && s[i + 1] == e[1]);
            assert(s[i] == '\\');
            assert(s[i + 1] != 'u');
        } else if (c as u32) < 32 {
            let hi = (c as u32) as int / 16;
            let lo = (c as u32) as int % 16;
            lemma_hex_char(hi);
            lemma_hex_char(lo);
            assert(s[i + 0] == e[0] && s[i + 1] == e[1] && s[i + 2] == e[2] && s[i + 3] == e[3]
                && s[i + 4] == e[4] && s[i + 5] == e[5]);
            assert(s[i] == '\\' && s[i + 1] == 'u' && s[i + 2] == '0' && s[i + 3] == '0');
            assert(s[i + 4] == hex_char(hi) && s[i + 5] == hex_char(lo));
            assert(hex_val(s[i + 4]) == hi && hi < 2);
            assert(hex_val(s[i + 5]) == lo);
            assert(hi * 16 + lo == c as u32);
            lemma_char_of_code(c, hi * 16 + lo);
        } else {
            assert(e == seq![c]);
            assert(s[i + 0] == e[0]);
            assert(s[i] == c);
            assert(s[i] != '"' && s[i] != '\\' && !((s[i] as u32) < 32));
        }
    }
}

/// The first character of an encoded value: never whitespace, never a
/// delimiter.
proof fn lemma_enc_first(v: JVal)
    requires
        wf(v),
    ensures
        enc(v).len() >= 1,
        !is_ws(enc(v)[0]),
        enc(v)[0] != ']' && enc(v)[0] != '}' && enc(v)[0] != ',' && enc(v)[0] != ':',
{
    match v {
        JVal::Null => {
            reveal_strlit("null");
        },
        JVal::Bool(b) => {
            reveal_strlit("true");
            reveal_strlit("false");
        },
        JVal::Int(m) => {
            if m >= 0 {
                lemma_dec_text(m);
                assert(is_digit(enc(v)[0]));
            } else {
                lemma_dec_text(-m);
                assert(enc(v)[0] == '-');
            }
        },
        JVal::Str(t) => {
            assert(enc(v)[0] == '"');
        },
        JVal::Arr(items) => {
            assert(enc(v)[0] == '[');
        },
        JVal::Obj(fields) => {
            assert(enc(v)[0] == '{');
        },
    }
}

/// The characters of an embedded piece of text, one by one.
proof fn lemma_embed(s: Seq<char>, i: int, t: Seq<char>)
    requires
        0 <= i,
        i + t.len() <= s.len(),
        s.subrange(i, i + t.len()) == t,
    ensures
        forall|q: int| 0 <= q < t.len() ==> s[i + q] == #[trigger] t[q],
{
    assert forall|q: int| 0 <= q < t.len() implies s[i + q] == #[trigger] t[q] by {
        assert(s.subrange(i, i + t.len())[q] == t[q]);
        assert(s.subrange(i, i + t.len())[q] == s[i + q]);
    }
}

/// A part of an embedded text is embedded at its own position.
proof fn lemma_embed_sub(s: Seq<char>, i: int, t: Seq<char>, a: int, b: int)
    requires
        0 <= i,
        i + t.len() <= s.len(),
        s.subrange(i, i + t.len()) == t,
        0 <= a <= b <= t.len(),
    ensures
        s.subrange(i + a, i + b) == t.subrange(a, b),
{
    lemma_embed(s, i, t);
    assert forall|q: int| 0 <= q < b - a implies #[trigger] s.subrange(i + a, i + b)[q]
        == t.subrange(a, b)[q] by {
        assert(s.subrange(i + a, i + b)[q] == s[i + a + q]);
        assert(s[i + (a + q)] == t[a + q]);
    }
    assert(s.subrange(i + a, i + b) =~= t.subrange(a, b));
}

/// Parsing a value out of its own text gives the value back, with any fuel
/// beyond the text length.
#[verifier::rlimit(100)]
proof fn lemma_rt_val(v: JVal, s: Seq<char>, i: int, f: nat)
    requires
        wf(v),
        0 <= i,
        i + enc(v).len() <= s.len(),
        s.subrange(i, i + enc(v).len()) == enc(v),
        i + enc(v).len() == s.len() || s[i + enc(v).len()] == ',' || s[i + enc(v).len()] == ']'
            || s[i + enc(v).len()] == '}',
        f >= enc(v).len() + 1,
    ensures
        p_val(s, i, f) == Some((v, i + enc(v).len())),
    decreases v, 0int,
{
    let l = enc(v).len() as int;
    lemma_enc_first(v);
    lemma_embed(s, i, enc(v));
    assert(s[i + 0] == enc(v)[0]);
    assert(s[i] == enc(v)[0]);
    assert(skip_ws(s, i) == i);
    reveal_strlit("null");
    reveal_strlit("true");
    reveal_strlit("false");
    match v {
        JVal::Null => {
            assert(s.subrange(i, i + 4) == "null"@);
            assert(p_val(s, i, f) == Some((v, i + enc(v).len())));
        },
        JVal::Bool(b) => {
            if b {
                assert(s.subrange(i, i + 4) == "true"@);
                assert(s[i] == 't' && s[i] != 'n');
            } else {
                assert(s.subrange(i, i + 5) == "false"@);
                assert(s[i] == 'f' && s[i] != 'n' && s[i] != 't');
            }
            assert(p_val(s, i, f) == Some((v, i + enc(v).len())));
        },
        JVal::Int(m) => {
            if m >= 0 {
                lemma_dec_text(m);
                assert(is_digit(s[i]));
            } else {
                assert(s[i] == '-');
            }
            assert(s[i] != 'n' && s[i] != 't' && s[i] != 'f' && s[i] != '"');
            lemma_rt_int(m, s, i);
            assert(p_val(s, i, f) == Some((v, i + enc(v).len())));
        },
        JVal::Str(t) => {
            assert(s[i] == '"');
            assert(s[i] != 'n' && s[i] != 't' && s[i] != 'f');
            assert(!(s[i] == '-' || is_digit(s[i])));
            let el = esc_text(t, 0).len() as int;
            lemma_embed_sub(s, i, enc(v), 1, 1 + el);
            assert(enc(v).subrange(1, 1 + el) =~= esc_text(t, 0));
            assert(s[i + (1 + el)] == enc(v)[1 + el]);
            assert(enc(v)[1 + el] == '"');
            lemma_rt_str(t, 0, s, i + 1);
            assert(t.subrange(0, t.len() as int) =~= t);
            assert(p_val(s, i, f) == Some((v, i + enc(v).len())));
        },
        JVal::Arr(items) => {
            assert(s[i] == '[');
            assert(s[i] != 'n' && s[i] != 't' && s[i] != 'f' && s[i] != '"');
            assert(!(s[i] == '-' || is_digit(s[i])));
            let il = enc_items(items, 0).len() as int;
            lemma_embed_sub(s, i, enc(v), 1, 1 + il);
            assert(enc(v).subrange(1, 1 + il) =~= enc_items(items, 0));
            assert(s[i + (1 + il)] == enc(v)[1 + il]);
            assert(enc(v)[1 + il] == ']');
            if items.len() == 0 {
                assert(il == 0);
                assert(s[i + 1] == ']');
                assert(skip_ws(s, i + 1) == i + 1);
                assert(items =~= Seq::<JVal>::empty());
            } else {
                lemma_enc_first(items[0]);
                lemma_embed(s, i + 1, enc_items(items, 0));
                assert(s[i + 1 + 0] == enc_items(items, 0)[0]);
                assert(enc_items(items, 0)[0] == enc(items[0])[0]);
                assert(!is_ws(s[i + 1]) && s[i + 1] != ']');
                assert(skip_ws(s, i + 1) == i + 1);
                lemma_rt_items(items, 0, s, i + 1, (f - 1) as nat);
                assert(items.subrange(0, items.len() as int) =~= items);
            }
            assert(p_val(s, i, f) == Some((v, i + enc(v).len())));
        },
        JVal::Obj(fields) => {
            assert(s[i] == '{');
            assert(s[i] != 'n' && s[i] != 't' && s[i] != 'f' && s[i] != '"');
            assert(!(s[i] == '-' || is_digit(s[i])));
            assert(s[i] != '[');
            let il = enc_fields(fields, 0).len() as int;
            lemma_embed_sub(s, i, enc(v), 1, 1 + il);
            assert(enc(v).subrange(1, 1 + il) =~= enc_fields(fields, 0));
            assert(s[i + (1 + il)] == enc(v)[1 + il]);
            assert(enc(v)[1 + il] == '}');
            if fields.len() == 0 {
                assert(il == 0);
                assert(s[i + 1] == '}');
                assert(skip_ws(s, i + 1) == i + 1);
                assert(fields =~= Seq::<(Seq<char>, JVal)>::empty());
            } else {
                lemma_embed(s, i + 1, enc_fields(fields, 0));
                assert(s[i + 1 + 0] == enc_fields(fields, 0)[0]);
                assert(enc_fields(fields, 0)[0] == enc_str(fields[0].0)[0]);
                assert(s[i + 1] == '"');
                assert(skip_ws(s, i + 1) == i + 1);
                lemma_rt_fields(fields, 0, s, i + 1, (f - 1) as nat);
                assert(fields.subrange(0, fields.len() as int) =~= fields);
            }
            assert(p_val(s, i, f) == Some((v, i + enc(v).len())));
        },
    }
}

/// Parsing the items of an array out of their own text gives them back.
proof fn lemma_rt_items(items: Seq<JVal>, k: int, s: Seq<char>, i: int, f: nat)
    requires
        0 <= k < items.len(),
        forall|q: int| 0 <= q < items.len() ==> wf(#[trigger] items[q]),
        0 <= i,
        i + enc_items(items, k).len() < s.len(),
        s.subrange(i, i + enc_items(items, k).len()) == enc_items(items, k),
        s[i + enc_items(items, k).len()] == ']',
        f >= enc_items(items, k).len() + 2,
    ensures
        p_items(s, i, f) == Some(
            (items.subrange(k, items.len() as int), i + enc_items(items, k).len() + 1),
        ),
    decreases items, items.len() - k,
{
    let ei = enc_items(items, k);
    let el = ei.len() as int;
    let v = items[k];
    let vl = enc(v).len() as int;
    lemma_enc_first(v);
    lemma_embed(s, i, ei);
    if k == items.len() - 1 {
        assert(ei == enc(v));
        lemma_rt_val(v, s, i, (f - 1) as nat);
        assert(s[i + vl] == ']');
        assert(skip_ws(s, i + vl) == i + vl);
        assert(seq![v] =~= items.subrange(k, items.len() as int));
    } else {
        assert(ei == enc(v) + seq![','] + enc_items(items, k + 1));
        let rest = enc_items(items, k + 1);
        let rl = rest.len() as int;
        assert(el == vl + 1 + rl);
        lemma_embed_sub(s, i, ei, 0, vl);
        assert(ei.subrange(0, vl) =~= enc(v));
        assert(s[i + vl] == ei[vl]);
        assert(ei[vl] == ',');
        lemma_rt_val(v, s, i, (f - 1) as nat);
        assert(skip_ws(s, i + vl) == i + vl);
        lemma_embed_sub(s, i, ei, vl + 1, el);
        assert(ei.subrange(vl + 1, el) =~= rest);
        assert(s[i + (vl + 1) + rl] == s[i + el]);
        lemma_rt_items(items, k + 1, s, i + vl + 1, (f - 1) as nat);
        assert(seq![v] + items.subrange(k + 1, items.len() as int) =~= items.subrange(
            k,
            items.len() as int,
        ));
    }
}

/// Parsing the fields of an object out of their own text gives them back.
proof fn lemma_rt_fields(fields: Seq<(Seq<char>, JVal)>, k: int, s: Seq<char>, i: int, f: nat)
    requires
        0 <= k < fields.len(),
        forall|q: int| 0 <= q < fields.len() ==> wf(#[trigger] fields[q].1),
        0 <= i,
        i + enc_fields(fields, k).len() < s.len(),
        s.subrange(i, i + enc_fields(fields, k).len()) == enc_fields(fields, k),
        s[i + enc_fields(fields, k).len()] == '}',
        f >= enc_fields(fields, k).len() + 2,
    ensures
        p_fields(s, i, f) == Some(
            (fields.subrange(k, fields.len() as int), i + enc_fields(fields, k).len() + 1),
        ),
    decreases fields, fields.len() - k,
{
    let ef = enc_fields(fields, k);
    let el = ef.len() as int;
    let key = fields[k].0;
    let v = fields[k].1;
    let kl = enc_str(key).len() as int;
    let vl = enc(v).len() as int;
    let sl = esc_text(key, 0).len() as int;
    assert(kl == sl + 2);
    lemma_enc_first(v);
    lemma_embed(s, i, ef);
    let head = enc_str(key) + seq![':'] + enc(v);
    assert(ef == if k == fields.len() - 1 {
        head
    } else {
        head + seq![','] + enc_fields(fields, k + 1)
    });
    // the key string
    assert(s[i + 0] == ef[0]);
    assert(ef[0] == enc_str(key)[0]);
    assert(s[i] == '"');
    assert(skip_ws(s, i) == i);
    lemma_embed_sub(s, i, ef, 1, 1 + sl);
    assert(ef.subrange(1, 1 + sl) =~= esc_text(key, 0));
    assert(s[i + (1 + sl)] == ef[1 + sl]);
    assert(ef[1 + sl] == enc_str(key)[kl - 1]);
    assert(enc_str(key)[kl - 1] == '"');
    lemma_rt_str(key, 0, s, i + 1);
    assert(key.subrange(0, key.len() as int) =~= key);
    // the colon
    assert(s[i + kl] == ef[kl]);
    assert(ef[kl] == ':');
    assert(skip_ws(s, i + kl) == i + kl);
    // the value
    lemma_embed_sub(s, i, ef, kl + 1, kl + 1 + vl);
    assert(ef.subrange(kl + 1, kl + 1 + vl) =~= enc(v));
    if k == fields.len() - 1 {
        assert(s[i + (kl + 1) + vl] == s[i + el]);
        lemma_rt_val(v, s, i + kl + 1, (f - 1) as nat);
        assert(skip_ws(s, i + (kl + 1 + vl)) == i + (kl + 1 + vl));
        assert(seq![(key, v)] =~= fields.subrange(k, fields.len() as int));
    } else {
        let rest = enc_fields(fields, k + 1);
        let rl = rest.len() as int;
        assert(el == kl + 1 + vl + 1 + rl);
        assert(s[i + (kl + 1) + vl] == ef[kl + 1 + vl]);
        assert(ef[kl + 1 + vl] == ',');
        lemma_rt_val(v, s, i + kl + 1, (f - 1) as nat);
        assert(skip_ws(s, i + (kl + 1 + vl)) == i + (kl + 1 + vl));
        let ri = i + kl + 1 + vl + 1;
        lemma_embed_sub(s, i, ef, kl + 1 + vl + 1, el);
        assert(ef.subrange(kl + 1 + vl + 1, el) =~= rest);
        assert(s[ri + rl] == s[i + el]);
        lemma_rt_fields(fields, k + 1, s, ri, (f - 1) as nat);
        assert(seq![(key, v)] + fields.subrange(k + 1, fields.len() as int) =~= fields.subrange(
            k,
            fields.len() as int,
        ));
    }
}

/// Round trip: parsing the one-line text of any well-formed value gives
/// that value back.
pub proof fn lemma_parse_of_enc(v: JVal)
    requires
        wf(v),
    ensures
        parse_text(enc(v)) == Some(v),
{
    let s = enc(v);
    assert(s.subrange(0, s.len() as int) =~= s);
    lemma_rt_val(v, s, 0, (s.len() + 1) as nat);
    assert(skip_ws(s, s.len() as int) == s.len() as int);
}

/// Round trip for the engine's own output: every response encodes to a line
/// that parses back to exactly the response's wire object.
pub proof fn lemma_response_round_trip(r: Response)
    ensures
        wf(resp_jv(r)),
        parse_text(enc(resp_jv(r))) == Some(resp_jv(r)),
{
    lemma_jv_wf(r.id);
    match r.body {
        crate::codec::RespBody::Value(v) => {
            lemma_jv_wf(v);
            assert forall|q: int| 0 <= q < resp_jv(r)->Obj_0.len() implies wf(
                #[trigger] resp_jv(r)->Obj_0[q].1,
            ) by {
            }
        },
        crate::codec::RespBody::Failure(e) => {
            assert forall|q: int| 0 <= q < resp_jv(r)->Obj_0.len() implies wf(
                #[trigger] resp_jv(r)->Obj_0[q].1,
            ) by {
                if q == 2 {
                    let ev = resp_jv(r)->Obj_0[2].1;
                    assert forall|p: int| 0 <= p < ev->Obj_0.len() implies wf(
                        #[trigger] ev->Obj_0[p].1,
                    ) by {
                    }
                }
            }
        },
    }
    lemma_parse_of_enc(resp_jv(r));
}

/// No character of a decimal text is a newline.
proof fn lemma_dec_one_line(n: int)
    requires
        n >= 0,
    ensures
        forall|k: int| 0 <= k < dec_text(n).len() ==> #[trigger] dec_text(n)[k] != '\n',
{
    lemma_dec_text(n);
    assert forall|k: int| 0 <= k < dec_text(n).len() implies #[trigger] dec_text(n)[k]
        != '\n' by {
        assert(is_digit(dec_text(n)[k]));
    }
}

/// No character of an escaped text is a newline.
proof fn lemma_esc_one_line(t: Seq<char>, i: int)
    requires
        0 <= i <= t.len(),
    ensures
        forall|k: int| 0 <= k < esc_text(t, i).len() ==> #[trigger] esc_text(t, i)[k] != '\n',
    decreases t.len() - i,
{
    if i < t.len() {
        lemma_esc_one_line(t, i + 1);
        lemma_esc_text_split(t, i);
        let c = t[i];
        let e = esc_char(c);
        if (c as u32) < 32 && c != '"' && c != '\\' && c != '\n' && c != '\r' && c != '\t' {
            lemma_hex_char((c as u32) as int / 16);
            lemma_hex_char((c as u32) as int % 16);
        }
        assert forall|k: int| 0 <= k < e.len() implies e[k] != '\n' by {}
        assert forall|k: int| 0 <= k < esc_text(t, i).len() implies #[trigger] esc_text(t, i)[k]
            != '\n' by {
            if k < e.len() {
                assert(esc_text(t, i)[k] == e[k]);
            } else {
                assert(esc_text(t, i)[k] == esc_text(t, i + 1)[k - e.len()]);
            }
        }
    }
}

/// No character of an encoded value is a newline: one value is one line.
pub proof fn lemma_enc_one_line(v: JVal)
    ensures
        forall|k: int| 0 <= k < enc(v).len() ==> #[trigger] enc(v)[k] != '\n',
    decreases v, 0int,
{
    reveal_strlit("null");
    reveal_strlit("true");
    reveal_strlit("false");
    match v {
        JVal::Null => {},
        JVal::Bool(b) => {},
        JVal::Int(m) => {
            if m >= 0 {
                lemma_dec_one_line(m);
            } else {
                lemma_dec_one_line(-m);
                assert forall|k: int| 0 <= k < enc(v).len() implies #[trigger] enc(v)[k]
                    != '\n' by {
                    if k > 0 {
                        assert(enc(v)[k] == dec_text(-m)[k - 1]);
                    }
                }
            }
        },
        JVal::Str(t) => {
            lemma_esc_one_line(t, 0);
            assert forall|k: int| 0 <= k < enc(v).len() implies #[trigger] enc(v)[k] != '\n' by {
                if 0 < k < enc(v).len() - 1 {
                    assert(enc(v)[k] == esc_text(t, 0)[k - 1]);
                }
            }
        },
        JVal::Arr(items) => {
            lemma_items_one_line(items, 0);
            assert forall|k: int| 0 <= k < enc(v).len() implies #[trigger] enc(v)[k] != '\n' by {
                if 0 < k < enc(v).len() - 1 {
                    assert(enc(v)[k] == enc_items(items, 0)[k - 1]);
                }
            }
        },
        JVal::Obj(fields) => {
            lemma_fields_one_line(fields, 0);
            assert forall|k: int| 0 <= k < enc(v).len() implies #[trigger] enc(v)[k] != '\n' by {
                if 0 < k < enc(v).len() - 1 {
                    assert(enc(v)[k] == enc_fields(fields, 0)[k - 1]);
                }
            }
        },
    }
}

/// No character of encoded array items is a newline.
proof fn lemma_items_one_line(items: Seq<JVal>, i: int)
    ensures
        forall|k: int|
            0 <= k < enc_items(items, i).len() ==> #[trigger] enc_items(items, i)[k] != '\n',
    decreases items, items.len() - i,
{
    if 0 <= i < items.len() {
        lemma_enc_one_line(items[i]);
        if i < items.len() - 1 {
            lemma_items_one_line(items, i + 1);
            let vl = enc(items[i]).len() as int;
            assert forall|k: int| 0 <= k < enc_items(items, i).len() implies #[trigger] enc_items(
                items,
                i,
            )[k] != '\n' by {
                if k < vl {
                    assert(enc_items(items, i)[k] == enc(items[i])[k]);
                } else if k > vl {
                    assert(enc_items(items, i)[k] == enc_items(items, i + 1)[k - vl - 1]);
                }
            }
        }
    }
}

/// No character of encoded object fields is a newline.
proof fn lemma_fields_one_line(fields: Seq<(Seq<char>, JVal)>, i: int)
    ensures
        forall|k: int|
            0 <= k < enc_fields(fields, i).len() ==> #[trigger] enc_fields(fields, i)[k] != '\n',
    decreases fields, fields.len() - i,
{
    if 0 <= i < fields.len() {
        let key = fields[i].0;
        let v = fields[i].1;
        lemma_esc_one_line(key, 0);
        lemma_enc_one_line(v);
        let kl = enc_str(key).len() as int;
        let vl = enc(v).len() as int;
        assert forall|k: int| 0 <= k < kl implies enc_str(key)[k] != '\n' by {
            if 0 < k < kl - 1 {
                assert(enc_str(key)[k] == esc_text(key, 0)[k - 1]);
            }
        }
        let head = enc_str(key) + seq![':'] + enc(v);
        assert forall|k: int| 0 <= k < head.len() implies head[k] != '\n' by {
            if k < kl {
                assert(head[k] == enc_str(key)[k]);
            } else if k > kl {
                assert(head[k] == enc(v)[k - kl - 1]);
            }
        }
        if i < fields.len() - 1 {
            lemma_fields_one_line(fields, i + 1);
            assert forall|k: int| 0 <= k < enc_fields(fields, i).len() implies
                #[trigger] enc_fields(fields, i)[k] != '\n' by {
                if k < head.len() {
                    assert(enc_fields(fields, i)[k] == head[k]);
                } else if k > head.len() {
                    assert(enc_fields(fields, i)[k] == enc_fields(fields, i + 1)[k - head.len()
                        - 1]);
                }
            }
        } else {
            assert forall|k: int| 0 <= k < enc_fields(fields, i).len() implies
                #[trigger] enc_fields(fields, i)[k] != '\n' by {
                assert(enc_fields(fields, i)[k] == head[k]);
            }
        }
    }
}

/// Every response the engine emits is a single line: its encoding holds no
/// raw newline, so the newline that frames it is the only one.
pub proof fn lemma_response_one_line(r: Response)
    ensures
        forall|k: int|
            0 <= k < enc(resp_jv(r)).len() ==> #[trigger] enc(resp_jv(r))[k] != '\n',
{
    lemma_enc_one_line(resp_jv(r));
}

} // verus!
