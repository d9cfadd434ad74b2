//! Parsing one line of JSON text back into a value.
//!
//! The spec-level parser (`p_val` and friends) is the meaning of parsing; the
//! executable functions return exactly what it says. Whitespace between
//! tokens is tolerated. Numbers must be 64-bit integers without leading
//! zeros; a string may use the short escapes and `\u00XX` (code points up to
//! U+00FF; higher `\uXXXX` escapes are not accepted); anything else on a
//! line is malformed.

use vstd::prelude::*;
use crate::json::{JVal, Json, jv_items, jv_fields, lemma_jv_items, lemma_jv_fields};

verus! {

/// The four whitespace characters tolerated between tokens.
pub open spec fn is_ws(c: char) -> bool {
    c == ' ' || c == '\t' || c == '\n' || c == '\r'
}

/// First position at or after `i` that does not hold whitespace.
pub open spec fn skip_ws(s: Seq<char>, i: int) -> int
    decreases s.len() - i,
{
    if 0 <= i < s.len() && is_ws(s[i]) {
        skip_ws(s, i + 1)
    } else {
        i
    }
}

/// Decimal digit characters.
pub open spec fn is_digit(c: char) -> bool {
    48 <= c as u32 <= 57
}

/// Numeric value of a decimal digit character.
pub open spec fn digit_val(c: char) -> int {
    c as u32 - 48
}

/// Lower-case hexadecimal digit characters.
pub open spec fn is_hex(c: char) -> bool {
    is_digit(c) || (97 <= c as u32 <= 102)
}

/// Numeric value of a lower-case hexadecimal digit character.
pub open spec fn hex_val(c: char) -> int {
    if is_digit(c) {
        digit_val(c)
    } else {
        c as u32 - 87
    }
}

/// First position at or after `i` that does not hold a decimal digit.
pub open spec fn digits_end(s: Seq<char>, i: int) -> int
    decreases s.len() - i,
{
    if 0 <= i < s.len() && is_digit(s[i]) {
        digits_end(s, i + 1)
    } else {
        i
    }
}

/// A digit run ends inside the text.
pub proof fn lemma_digits_end_bounds(s: Seq<char>, i: int)
    requires
        0 <= i <= s.len(),
    ensures
        i <= digits_end(s, i) <= s.len(),
        forall|k: int| i <= k < digits_end(s, i) ==> is_digit(#[trigger] s[k]),
    decreases s.len() - i,
{
    if i < s.len() && is_digit(s[i]) {
        lemma_digits_end_bounds(s, i + 1);
    }
}

/// Value of the decimal digits `s[i..j]`, most significant first.
pub open spec fn digits_val(s: Seq<char>, i: int, j: int) -> int
    decreases j - i,
{
    if i >= j {
        0
    } else {
        digits_val(s, i, j - 1) * 10 + digit_val(s[j - 1])
    }
}

/// Powers of ten.
pub open spec fn pow10(k: nat) -> int
    decreases k,
{
    if k == 0 {
        1
    } else {
        10 * pow10((k - 1) as nat)
    }
}

/// Parse of one JSON number starting at `i`.
pub open spec fn p_int(s: Seq<char>, i: int) -> Option<(JVal, int)> {
    let neg = 0 <= i < s.len() && s[i] == '-';
    let i0 = if neg {
        i + 1
    } else {
        i
    };
    if !(0 <= i0 < s.len() && is_digit(s[i0])) {
        None
    } else {
        let j = digits_end(s, i0);
        if j - i0 > 19 {
            None
        } else if s[i0] == '0' && j - i0 > 1 {
            None
        } else {
            let m = digits_val(s, i0, j);
            if neg {
                if m <= 0x8000_0000_0000_0000 {
                    Some((JVal::Int(-m), j))
                } else {
                    None
                }
            } else {
                if m <= 0x7fff_ffff_ffff_ffff {
                    Some((JVal::Int(m), j))
                } else {
                    None
                }
            }
        }
    }
}

/// The character a `\u00XX` escape stands for: the code point of one byte.
pub open spec fn code_char(n: int) -> char {
    (n as u8) as char
}

/// Parse of the inside of a quoted string, from just after the opening quote
/// to just after the closing quote.
pub open spec fn p_str(s: Seq<char>, i: int) -> Option<(Seq<char>, int)>
    decreases s.len() - i,
{
    if !(0 <= i < s.len()) {
        None
    } else if s[i] == '"' {
        Some((Seq::empty(), i + 1))
    } else if s[i] == '\\' {
        if !(i + 2 <= s.len()) {
            None
        } else if s[i + 1] == 'u' {
            if i + 6 <= s.len() && s[i + 2] == '0' && s[i + 3] == '0' && is_hex(s[i + 4])
                && is_hex(s[i + 5]) {
                match p_str(s, i + 6) {
                    None => None,
                    Some((t, j)) => Some(
                        (seq![code_char(hex_val(s[i + 4]) * 16 + hex_val(s[i + 5]))] + t, j),
                    ),
                }
            } else {
                None
            }
        } else if s[i + 1] == '"' || s[i + 1] == '\\' || s[i + 1] == '/' || s[i + 1] == 'n' || s[i
            + 1] == 'r' || s[i + 1] == 't' || s[i + 1] == 'b' || s[i + 1] == 'f' {
            let c = if s[i + 1] == 'n' {
                '\n'
            } else if s[i + 1] == 'r' {
                '\r'
            } else if s[i + 1] == 't' {
                '\t'
            } else if s[i + 1] == 'b' {
                code_char(8)
            } else if s[i + 1] == 'f' {
                code_char(12)
            } else {
                s[i + 1]
            };
            match p_str(s, i + 2) {
                None => None,
                Some((t, j)) => Some((seq![c] + t, j)),
            }
        } else {
            None
        }
    } else if (s[i] as u32) < 32 {
        None
    } else {
        match p_str(s, i + 1) {
            None => None,
            Some((t, j)) => Some((seq![s[i]] + t, j)),
        }
    }
}

/// Parse of one JSON value starting at `i`: the value and the position just
/// after it. `f` bounds the recursion; one unit is spent for each nested
/// bracket or comma, so any fuel beyond the text length is enough.
pub open spec fn p_val(s: Seq<char>, i: int, f: nat) -> Option<(JVal, int)>
    decreases f,
{
    if f == 0 {
        None
    } else {
        let i0 = skip_ws(s, i);
        if !(0 <= i0 < s.len()) {
            None
        } else if s[i0] == 'n' {
            if i0 + 4 <= s.len() && s.subrange(i0, i0 + 4) == "null"@ {
                Some((JVal::Null, i0 + 4))
            } else {
                None
            }
        } else if s[i0] == 't' {
            if i0 + 4 <= s.len() && s.subrange(i0, i0 + 4) == "true"@ {
                Some((JVal::Bool(true), i0 + 4))
            } else {
                None
            }
        } else if s[i0] == 'f' {
            if i0 + 5 <= s.len() && s.subrange(i0, i0 + 5) == "false"@ {
                Some((JVal::Bool(false), i0 + 5))
            } else {
                None
            }
        } else if s[i0] == '"' {
            match p_str(s, i0 + 1) {
                None => None,
                Some((t, j)) => Some((JVal::Str(t), j)),
            }
        } else if s[i0] == '-' || is_digit(s[i0]) {
            p_int(s, i0)
        } else if s[i0] == '[' {
            let i1 = skip_ws(s, i0 + 1);
            if 0 <= i1 < s.len() && s[i1] == ']' {
                Some((JVal::Arr(Seq::empty()), i1 + 1))
            } else {
                match p_items(s, i0 + 1, (f - 1) as nat) {
                    None => None,
                    Some((vs, j)) => Some((JVal::Arr(vs), j)),
                }
            }
        } else if s[i0] == '{' {
            let i1 = skip_ws(s, i0 + 1);
            if 0 <= i1 < s.len() && s[i1] == '}' {
                Some((JVal::Obj(Seq::empty()), i1 + 1))
            } else {
                match p_fields(s, i0 + 1, (f - 1) as nat) {
                    None => None,
                    Some((fs, j)) => Some((JVal::Obj(fs), j)),
                }
            }
        } else {
            None
        }
    }
}

/// Parse of the items of a non-empty array, up to and including the closing
/// bracket.
pub open spec fn p_items(s: Seq<char>, i: int, f: nat) -> Option<(Seq<JVal>, int)>
    decreases f,
{
    if f == 0 {
        None
    } else {
        match p_val(s, i, (f - 1) as nat) {
            None => None,
            Some((v, j)) => {
                let j0 = skip_ws(s, j);
                if !(0 <= j0 < s.len()) {
                    None
                } else if s[j0] == ',' {
                    match p_items(s, j0 + 1, (f - 1) as nat) {
                        None => None,
                        Some((rest, e)) => Some((seq![v] + rest, e)),
                    }
                } else if s[j0] == ']' {
                    Some((seq![v], j0 + 1))
                } else {
                    None
                }
            },
        }
    }
}

/// Parse of the fields of a non-empty object, up to and including the closing
/// brace.
pub open spec fn p_fields(s: Seq<char>, i: int, f: nat) -> Option<(Seq<(Seq<char>, JVal)>, int)>
    decreases f,
{
    if f == 0 {
        None
    } else {
        let i0 = skip_ws(s, i);
        if !(0 <= i0 < s.len() && s[i0] == '"') {
            None
        } else {
            match p_str(s, i0 + 1) {
                None => None,
                Some((key, j)) => {
                    let j0 = skip_ws(s, j);
                    if !(0 <= j0 < s.len() && s[j0] == ':') {
                        None
                    } else {
                        match p_val(s, j0 + 1, (f - 1) as nat) {
                            None => None,
                            Some((v, k)) => {
                                let k0 = skip_ws(s, k);
                                if !(0 <= k0 < s.len()) {
                                    None
                                } else if s[k0] == ',' {
                                    match p_fields(s, k0 + 1, (f - 1) as nat) {
                                        None => None,
                                        Some((rest, e)) => Some((seq![(key, v)] + rest, e)),
                                    }
                                } else if s[k0] == '}' {
                                    Some((seq![(key, v)], k0 + 1))
                                } else {
                                    None
                                }
                            },
                        }
                    }
                },
            }
        }
    }
}

/// Meaning of a whole line: one value, possibly surrounded by whitespace.
pub open spec fn parse_text(t: Seq<char>) -> Option<JVal> {
    match p_val(t, 0, (t.len() + 1) as nat) {
        None => None,
        Some((v, j)) => if skip_ws(t, j) == t.len() {
            Some(v)
        } else {
            None
        },
    }
}

/// How an executable parse result models a spec-level one.
pub open spec fn models_val(sr: Option<(JVal, int)>, r: Option<(Json, usize)>) -> bool {
    match (sr, r) {
        (None, None) => true,
        (Some((v, j)), Some(p)) => p.1 as int == j && p.0.jv() == v,
        _ => false,
    }
}

/// How an executable item-list parse models a spec-level one.
pub open spec fn models_items(sr: Option<(Seq<JVal>, int)>, r: Option<(Vec<Json>, usize)>) -> bool {
    match (sr, r) {
        (None, None) => true,
        (Some((vs, j)), Some(p)) => p.1 as int == j && jv_items(p.0@, 0) == vs,
        _ => false,
    }
}

/// How an executable field-list parse models a spec-level one.
pub open spec fn models_fields(
    sr: Option<(Seq<(Seq<char>, JVal)>, int)>,
    r: Option<(Vec<(String, Json)>, usize)>,
) -> bool {
    match (sr, r) {
        (None, None) => true,
        (Some((fs, j)), Some(p)) => p.1 as int == j && jv_fields(p.0@, 0) == fs,
        _ => false,
    }
}

/// How an executable string parse models a spec-level one.
pub open spec fn models_str(sr: Option<(Seq<char>, int)>, r: Option<(String, usize)>) -> bool {
    match (sr, r) {
        (None, None) => true,
        (Some((t, j)), Some(p)) => p.1 as int == j && p.0@ == t,
        _ => false,
    }
}

/// First non-whitespace position, executably.
fn skip_ws_exec(s: &str, n: usize, i: usize) -> (j: usize)
    requires
        n == s@.len(),
        i <= n,
    ensures
        j as int == skip_ws(s@, i as int),
        i <= j <= n,
    decreases n - i,
{
    if i < n {
        let c = s.get_char(i);
        if c == ' ' || c == '\t' || c == '\n' || c == '\r' {
            return skip_ws_exec(s, n, i + 1);
        }
    }
    i
}

/// Does `pat` occur in `s` starting at `i`?
fn starts_with_at(s: &str, n: usize, i: usize, pat: &str) -> (b: bool)
    requires
        n == s@.len(),
        i <= n,
    ensures
        b == (i + pat@.len() <= n && s@.subrange(i as int, i as int + pat@.len()) == pat@),
{
    let m = pat.unicode_len();
    if m > n - i {
        return false;
    }
    let mut k: usize = 0;
    while k < m
        invariant
            n == s@.len(),
            m == pat@.len(),
            i + m <= n,
            k <= m,
            forall|q: int| 0 <= q < k ==> s@[i + q] == pat@[q],
        decreases m - k,
    {
        if s.get_char(i + k) != pat.get_char(k) {
            proof {
                assert(s@.subrange(i as int, i as int + pat@.len())[k as int] != pat@[k as int]);
            }
            return false;
        }
        k = k + 1;
    }
    proof {
        assert(s@.subrange(i as int, i as int + pat@.len()) =~= pat@);
    }
    true
}

/// Numeric value of a lower-case hexadecimal digit, executably.
fn hex_val_exec(c: char) -> (v: u8)
    requires
        is_hex(c),
    ensures
        v as int == hex_val(c),
        v < 16,
{
    let u = c as u32;
    if u >= 97 {
        (u - 87) as u8
    } else {
        (u - 48) as u8
    }
}

/// One single-byte code point as a one-character string slice.
#[verifier::rlimit(100)]
fn code_char_str(code: u8) -> (out: &'static str)
    ensures
        out@ =~= seq![code_char(code as int)],
{
    let bytes =
        "\u{0}\u{1}\u{2}\u{3}\u{4}\u{5}\u{6}\u{7}\u{8}\u{9}\u{a}\u{b}\u{c}\u{d}\u{e}\u{f}\u{10}\u{11}\u{12}\u{13}\u{14}\u{15}\u{16}\u{17}\u{18}\u{19}\u{1a}\u{1b}\u{1c}\u{1d}\u{1e}\u{1f}\u{20}\u{21}\u{22}\u{23}\u{24}\u{25}\u{26}\u{27}\u{28}\u{29}\u{2a}\u{2b}\u{2c}\u{2d}\u{2e}\u{2f}\u{30}\u{31}\u{32}\u{33}\u{34}\u{35}\u{36}\u{37}\u{38}\u{39}\u{3a}\u{3b}\u{3c}\u{3d}\u{3e}\u{3f}\u{40}\u{41}\u{42}\u{43}\u{44}\u{45}\u{46}\u{47}\u{48}\u{49}\u{4a}\u{4b}\u{4c}\u{4d}\u{4e}\u{4f}\u{50}\u{51}\u{52}\u{53}\u{54}\u{55}\u{56}\u{57}\u{58}\u{59}\u{5a}\u{5b}\u{5c}\u{5d}\u{5e}\u{5f}\u{60}\u{61}\u{62}\u{63}\u{64}\u{65}\u{66}\u{67}\u{68}\u{69}\u{6a}\u{6b}\u{6c}\u{6d}\u{6e}\u{6f}\u{70}\u{71}\u{72}\u{73}\u{74}\u{75}\u{76}\u{77}\u{78}\u{79}\u{7a}\u{7b}\u{7c}\u{7d}\u{7e}\u{7f}\u{80}\u{81}\u{82}\u{83}\u{84}\u{85}\u{86}\u{87}\u{88}\u{89}\u{8a}\u{8b}\u{8c}\u{8d}\u{8e}\u{8f}\u{90}\u{91}\u{92}\u{93}\u{94}\u{95}\u{96}\u{97}\u{98}\u{99}\u{9a}\u{9b}\u{9c}\u{9d}\u{9e}\u{9f}\u{a0}\u{a1}\u{a2}\u{a3}\u{a4}\u{a5}\u{a6}\u{a7}\u{a8}\u{a9}\u{aa}\u{ab}\u{ac}\u{ad}\u{ae}\u{af}\u{b0}\u{b1}\u{b2}\u{b3}\u{b4}\u{b5}\u{b6}\u{b7}\u{b8}\u{b9}\u{ba}\u{bb}\u{bc}\u{bd}\u{be}\u{bf}\u{c0}\u{c1}\u{c2}\u{c3}\u{c4}\u{c5}\u{c6}\u{c7}\u{c8}\u{c9}\u{ca}\u{cb}\u{cc}\u{cd}\u{ce}\u{cf}\u{d0}\u{d1}\u{d2}\u{d3}\u{d4}\u{d5}\u{d6}\u{d7}\u{d8}\u{d9}\u{da}\u{db}\u{dc}\u{dd}\u{de}\u{df}\u{e0}\u{e1}\u{e2}\u{e3}\u{e4}\u{e5}\u{e6}\u{e7}\u{e8}\u{e9}\u{ea}\u{eb}\u{ec}\u{ed}\u{ee}\u{ef}\u{f0}\u{f1}\u{f2}\u{f3}\u{f4}\u{f5}\u{f6}\u{f7}\u{f8}\u{f9}\u{fa}\u{fb}\u{fc}\u{fd}\u{fe}\u{ff}";
    proof {
        reveal_strlit(
            "\u{0}\u{1}\u{2}\u{3}\u{4}\u{5}\u{6}\u{7}\u{8}\u{9}\u{a}\u{b}\u{c}\u{d}\u{e}\u{f}\u{10}\u{11}\u{12}\u{13}\u{14}\u{15}\u{16}\u{17}\u{18}\u{19}\u{1a}\u{1b}\u{1c}\u{1d}\u{1e}\u{1f}\u{20}\u{21}\u{22}\u{23}\u{24}\u{25}\u{26}\u{27}\u{28}\u{29}\u{2a}\u{2b}\u{2c}\u{2d}\u{2e}\u{2f}\u{30}\u{31}\u{32}\u{33}\u{34}\u{35}\u{36}\u{37}\u{38}\u{39}\u{3a}\u{3b}\u{3c}\u{3d}\u{3e}\u{3f}\u{40}\u{41}\u{42}\u{43}\u{44}\u{45}\u{46}\u{47}\u{48}\u{49}\u{4a}\u{4b}\u{4c}\u{4d}\u{4e}\u{4f}\u{50}\u{51}\u{52}\u{53}\u{54}\u{55}\u{56}\u{57}\u{58}\u{59}\u{5a}\u{5b}\u{5c}\u{5d}\u{5e}\u{5f}\u{60}\u{61}\u{62}\u{63}\u{64}\u{65}\u{66}\u{67}\u{68}\u{69}\u{6a}\u{6b}\u{6c}\u{6d}\u{6e}\u{6f}\u{70}\u{71}\u{72}\u{73}\u{74}\u{75}\u{76}\u{77}\u{78}\u{79}\u{7a}\u{7b}\u{7c}\u{7d}\u{7e}\u{7f}\u{80}\u{81}\u{82}\u{83}\u{84}\u{85}\u{86}\u{87}\u{88}\u{89}\u{8a}\u{8b}\u{8c}\u{8d}\u{8e}\u{8f}\u{90}\u{91}\u{92}\u{93}\u{94}\u{95}\u{96}\u{97}\u{98}\u{99}\u{9a}\u{9b}\u{9c}\u{9d}\u{9e}\u{9f}\u{a0}\u{a1}\u{a2}\u{a3}\u{a4}\u{a5}\u{a6}\u{a7}\u{a8}\u{a9}\u{aa}\u{ab}\u{ac}\u{ad}\u{ae}\u{af}\u{b0}\u{b1}\u{b2}\u{b3}\u{b4}\u{b5}\u{b6}\u{b7}\u{b8}\u{b9}\u{ba}\u{bb}\u{bc}\u{bd}\u{be}\u{bf}\u{c0}\u{c1}\u{c2}\u{c3}\u{c4}\u{c5}\u{c6}\u{c7}\u{c8}\u{c9}\u{ca}\u{cb}\u{cc}\u{cd}\u{ce}\u{cf}\u{d0}\u{d1}\u{d2}\u{d3}\u{d4}\u{d5}\u{d6}\u{d7}\u{d8}\u{d9}\u{da}\u{db}\u{dc}\u{dd}\u{de}\u{df}\u{e0}\u{e1}\u{e2}\u{e3}\u{e4}\u{e5}\u{e6}\u{e7}\u{e8}\u{e9}\u{ea}\u{eb}\u{ec}\u{ed}\u{ee}\u{ef}\u{f0}\u{f1}\u{f2}\u{f3}\u{f4}\u{f5}\u{f6}\u{f7}\u{f8}\u{f9}\u{fa}\u{fb}\u{fc}\u{fd}\u{fe}\u{ff}",
        );
    }
    bytes.substring_char(code as usize, code as usize + 1)
}

/// The inside of a quoted string, executably.
fn p_str_exec(s: &str, n: usize, i: usize) -> (r: Option<(String, usize)>)
    requires
        n == s@.len(),
        i <= n,
    ensures
        models_str(p_str(s@, i as int), r),
        r is Some ==> i < r.unwrap().1 <= n,
    decreases n - i,
{
    if i >= n {
        return None;
    }
    let c = s.get_char(i);
    if c == '"' {
        let out = String::new();
        proof {
            assert(out@ =~= Seq::<char>::empty());
        }
        return Some((out, i + 1));
    }
    if c == '\\' {
        if n - i < 2 {
            return None;
        }
        let e = s.get_char(i + 1);
        if e == 'u' {
            if !(n - i >= 6) {
                return None;
            }
            let c2 = s.get_char(i + 2);
            let c3 = s.get_char(i + 3);
            let c4 = s.get_char(i + 4);
            let c5 = s.get_char(i + 5);
            let hex4 = is_hex_exec(c4);
            let hex5 = is_hex_exec(c5);
            if !(c2 == '0' && c3 == '0' && hex4 && hex5) {
                return None;
            }
            let hi = hex_val_exec(c4);
            let lo = hex_val_exec(c5);
            let code: u8 = hi * 16 + lo;
            match p_str_exec(s, n, i + 6) {
                None => None,
                Some((rest, j)) => {
                    let piece = code_char_str(code);
                    let mut out = String::from_str(piece);
                    out.append(rest.as_str());
                    proof {
                        assert(out@ =~= seq![code_char(code as int)] + rest@);
                    }
                    Some((out, j))
                },
            }
        } else if e == '"' || e == '\\' || e == '/' || e == 'n' || e == 'r' || e == 't' || e == 'b'
            || e == 'f' {
            let piece: &str = if e == 'n' {
                "\n"
            } else if e == 'r' {
                "\r"
            } else if e == 't' {
                "\t"
            } else if e == 'b' {
                "\u{8}"
            } else if e == 'f' {
                "\u{c}"
            } else if e == '"' {
                "\""
            } else if e == '\\' {
                "\\"
            } else {
                "/"
            };
            proof {
                reveal_strlit("\n");
                reveal_strlit("\r");
                reveal_strlit("\t");
                reveal_strlit("\u{8}");
                reveal_strlit("\u{c}");
                reveal_strlit("\"");
                reveal_strlit("\\");
                reveal_strlit("/");
            }
            match p_str_exec(s, n, i + 2) {
                None => None,
                Some((rest, j)) => {
                    let mut out = String::from_str(piece);
                    out.append(rest.as_str());
                    proof {
                        let sv = s@;
                        let spec_c = if sv[i as int + 1] == 'n' {
                            '\n'
                        } else if sv[i as int + 1] == 'r' {
                            '\r'
                        } else if sv[i as int + 1] == 't' {
                            '\t'
                        } else if sv[i as int + 1] == 'b' {
                            code_char(8)
                        } else if sv[i as int + 1] == 'f' {
                            code_char(12)
                        } else {
                            sv[i as int + 1]
                        };
                        assert(out@ =~= seq![spec_c] + rest@);
                    }
                    Some((out, j))
                },
            }
        } else {
            None
        }
    } else if (c as u32) < 32 {
        None
    } else {
        match p_str_exec(s, n, i + 1) {
            None => None,
            Some((rest, j)) => {
                let piece = s.substring_char(i, i + 1);
                let mut out = String::from_str(piece);
                out.append(rest.as_str());
                proof {
                    assert(out@ =~= seq![s@[i as int]] + rest@);
                }
                Some((out, j))
            },
        }
    }
}

/// Is this character a lower-case hexadecimal digit?
fn is_hex_exec(c: char) -> (b: bool)
    ensures
        b == is_hex(c),
{
    let u = c as u32;
    (48 <= u && u <= 57) || (97 <= u && u <= 102)
}

/// End of a digit run, executably.
fn digits_end_exec(s: &str, n: usize, i: usize) -> (j: usize)
    requires
        n == s@.len(),
        i <= n,
    ensures
        j as int == digits_end(s@, i as int),
        i <= j <= n,
    decreases n - i,
{
    if i < n {
        let c = s.get_char(i);
        if 48 <= c as u32 && c as u32 <= 57 {
            return digits_end_exec(s, n, i + 1);
        }
    }
    i
}

/// One JSON number, executably.
fn p_int_exec(s: &str, n: usize, i: usize) -> (r: Option<(Json, usize)>)
    requires
        n == s@.len(),
        i <= n,
    ensures
        models_val(p_int(s@, i as int), r),
        r is Some ==> r.unwrap().1 <= n,
{
    let neg = i < n && s.get_char(i) == '-';
    let i0 = if neg {
        i + 1
    } else {
        i
    };
    if i0 >= n {
        return None;
    }
    let c0 = s.get_char(i0);
    if !(('0' as u32) <= c0 as u32 && c0 as u32 <= ('9' as u32)) {
        return None;
    }
    // find the end of the digit run
    let j: usize = digits_end_exec(s, n, i0);
    proof {
        lemma_digits_end_bounds(s@, i0 as int);
    }
    if j - i0 > 19 {
        return None;
    }
    if s.get_char(i0) == '0' && j - i0 > 1 {
        return None;
    }
    // accumulate the value
    let ghost sv = s@;
    let mut acc: u64 = 0;
    let mut k: usize = i0;
    proof {
        reveal_with_fuel(pow10, 20);
    }
    while k < j
        invariant
            n == sv.len(),
            sv == s@,
            i0 <= k <= j <= n,
            j - i0 <= 19,
            forall|q: int| i0 <= q < j ==> is_digit(#[trigger] sv[q]),
            acc as int == digits_val(sv, i0 as int, k as int),
            (acc as int) < pow10((k - i0) as nat),
            pow10(19) == 10_000_000_000_000_000_000,
        decreases j - k,
    {
        let ck = s.get_char(k);
        let d: u64 = (ck as u32 - 48) as u64;
        proof {
            assert(pow10(((k - i0) + 1) as nat) == 10 * pow10((k - i0) as nat));
            assert((k - i0) as nat <= 18nat);
            assert(pow10((k - i0) as nat) <= pow10(18)) by {
                lemma_pow10_mono((k - i0) as nat, 18nat);
            }
            assert(pow10(18) == 1_000_000_000_000_000_000);
        }
        acc = acc * 10 + d;
        k = k + 1;
    }
    if neg {
        if acc <= 0x8000_0000_0000_0000u64 {
            let v: i64 = (-(acc as i128)) as i64;
            Some((Json::Int(v), j))
        } else {
            None
        }
    } else {
        if acc <= 0x7fff_ffff_ffff_ffffu64 {
            Some((Json::Int(acc as i64), j))
        } else {
            None
        }
    }
}

/// `pow10` grows with its exponent.
proof fn lemma_pow10_mono(a: nat, b: nat)
    requires
        a <= b,
    ensures
        pow10(a) <= pow10(b),
        pow10(a) >= 1,
    decreases b,
{
    if a < b {
        lemma_pow10_mono(a, (b - 1) as nat);
        assert(pow10(b) == 10 * pow10((b - 1) as nat));
    } else {
        if a > 0 {
            lemma_pow10_mono((a - 1) as nat, (b - 1) as nat);
        }
    }
}

/// One JSON value, executably.
fn p_val_exec(s: &str, n: usize, i: usize, f: u64) -> (r: Option<(Json, usize)>)
    requires
        n == s@.len(),
        i <= n,
    ensures
        models_val(p_val(s@, i as int, f as nat), r),
        r is Some ==> r.unwrap().1 <= n,
    decreases f,
{
    if f == 0 {
        return None;
    }
    let i0 = skip_ws_exec(s, n, i);
    if i0 >= n {
        return None;
    }
    let c = s.get_char(i0);
    if c == 'n' {
        proof {
            reveal_strlit("null");
        }
        if starts_with_at(s, n, i0, "null") {
            Some((Json::Null, i0 + 4))
        } else {
            None
        }
    } else if c == 't' {
        proof {
            reveal_strlit("true");
        }
        if starts_with_at(s, n, i0, "true") {
            Some((Json::Bool(true), i0 + 4))
        } else {
            None
        }
    } else if c == 'f' {
        proof {
            reveal_strlit("false");
        }
        if starts_with_at(s, n, i0, "false") {
            Some((Json::Bool(false), i0 + 5))
        } else {
            None
        }
    } else if c == '"' {
        match p_str_exec(s, n, i0 + 1) {
            None => None,
            Some((t, j)) => Some((Json::Str(t), j)),
        }
    } else if c == '-' || (48 <= c as u32 && c as u32 <= 57) {
        p_int_exec(s, n, i0)
    } else if c == '[' {
        let i1 = skip_ws_exec(s, n, i0 + 1);
        if i1 < n && s.get_char(i1) == ']' {
            let out = Json::Arr(Vec::new());
            proof {
                assert(out.jv() =~= JVal::Arr(Seq::empty()));
            }
            Some((out, i1 + 1))
        } else {
            match p_items_exec(s, n, i0 + 1, f - 1) {
                None => None,
                Some((vs, j)) => Some((Json::Arr(vs), j)),
            }
        }
    } else if c == '{' {
        let i1 = skip_ws_exec(s, n, i0 + 1);
        if i1 < n && s.get_char(i1) == '}' {
            let out = Json::Obj(Vec::new());
            proof {
                assert(out.jv() =~= JVal::Obj(Seq::empty()));
            }
            Some((out, i1 + 1))
        } else {
            match p_fields_exec(s, n, i0 + 1, f - 1) {
                None => None,
                Some((fs, j)) => Some((Json::Obj(fs), j)),
            }
        }
    } else {
        None
    }
}

/// The items of a non-empty array, executably.
fn p_items_exec(s: &str, n: usize, i: usize, f: u64) -> (r: Option<(Vec<Json>, usize)>)
    requires
        n == s@.len(),
        i <= n,
    ensures
        models_items(p_items(s@, i as int, f as nat), r),
        r is Some ==> r.unwrap().1 <= n,
    decreases f,
{
    if f == 0 {
        return None;
    }
    match p_val_exec(s, n, i, f - 1) {
        None => None,
        Some((v, j)) => {
            let j0 = skip_ws_exec(s, n, j);
            if j0 >= n {
                return None;
            }
            let d = s.get_char(j0);
            if d == ',' {
                match p_items_exec(s, n, j0 + 1, f - 1) {
                    None => None,
                    Some((mut rest, e)) => {
                        let ghost restv = rest@;
                        let ghost vv = v;
                        let ghost jval = v.jv();
                        rest.insert(0, v);
                        proof {
                            lemma_jv_items(restv, 0);
                            lemma_jv_items(rest@, 0);
                            assert(rest@ =~= seq![vv] + restv);
                            assert forall|k: int| 0 <= k < rest@.len() implies jv_items(
                                rest@,
                                0,
                            )[k] == (seq![jval] + jv_items(restv, 0))[k] by {
                                assert(jv_items(rest@, 0)[k] == rest@[k].jv());
                                if k > 0 {
                                    assert(rest@[k] == restv[k - 1]);
                                    assert(jv_items(restv, 0)[k - 1] == restv[k - 1].jv());
                                }
                            }
                            assert(jv_items(rest@, 0) =~= seq![jval] + jv_items(restv, 0));
                        }
                        Some((rest, e))
                    },
                }
            } else if d == ']' {
                let ghost jval = v.jv();
                let mut one: Vec<Json> = Vec::new();
                one.push(v);
                proof {
                    lemma_jv_items(one@, 0);
                    assert(jv_items(one@, 0) =~= seq![jval]);
                }
                Some((one, j0 + 1))
            } else {
                None
            }
        },
    }
}

/// The fields of a non-empty object, executably.
fn p_fields_exec(s: &str, n: usize, i: usize, f: u64) -> (r: Option<(Vec<(String, Json)>, usize)>)
    requires
        n == s@.len(),
        i <= n,
    ensures
        models_fields(p_fields(s@, i as int, f as nat), r),
        r is Some ==> r.unwrap().1 <= n,
    decreases f,
{
    if f == 0 {
        return None;
    }
    let i0 = skip_ws_exec(s, n, i);
    if !(i0 < n && s.get_char(i0) == '"') {
        return None;
    }
    match p_str_exec(s, n, i0 + 1) {
        None => None,
        Some((key, j)) => {
            let j0 = skip_ws_exec(s, n, j);
            if !(j0 < n && s.get_char(j0) == ':') {
                return None;
            }
            match p_val_exec(s, n, j0 + 1, f - 1) {
                None => None,
                Some((v, k)) => {
                    let k0 = skip_ws_exec(s, n, k);
                    if k0 >= n {
                        return None;
                    }
                    let d = s.get_char(k0);
                    if d == ',' {
                        match p_fields_exec(s, n, k0 + 1, f - 1) {
                            None => None,
                            Some((mut rest, e)) => {
                                let ghost restv = rest@;
                                let ghost pair = (key, v);
                                let ghost kv = (key@, v.jv());
                                rest.insert(0, (key, v));
                                proof {
                                    lemma_jv_fields(restv, 0);
                                    lemma_jv_fields(rest@, 0);
                                    assert(rest@ =~= seq![pair] + restv);
                                    assert forall|k: int| 0 <= k < rest@.len() implies jv_fields(
                                        rest@,
                                        0,
                                    )[k] == (seq![kv] + jv_fields(restv, 0))[k] by {
                                        assert(jv_fields(rest@, 0)[k] == (
                                            rest@[k].0@,
                                            rest@[k].1.jv(),
                                        ));
                                        if k > 0 {
                                            assert(rest@[k] == restv[k - 1]);
                                            assert(jv_fields(restv, 0)[k - 1] == (
                                                restv[k - 1].0@,
                                                restv[k - 1].1.jv(),
                                            ));
                                        }
                                    }
                                    assert(jv_fields(rest@, 0) =~= seq![kv] + jv_fields(restv, 0));
                                }
                                Some((rest, e))
                            },
                        }
                    } else if d == '}' {
                        let ghost kv = (key@, v.jv());
                        let mut one: Vec<(String, Json)> = Vec::new();
                        one.push((key, v));
                        proof {
                            lemma_jv_fields(one@, 0);
                            assert(jv_fields(one@, 0) =~= seq![kv]);
                        }
                        Some((one, k0 + 1))
                    } else {
                        None
                    }
                },
            }
        },
    }
}

/// Parse a whole line: one JSON value, possibly surrounded by whitespace.
pub fn parse_json(s: &str) -> (r: Option<Json>)
    requires
        s@.len() < u64::MAX,
    ensures
        match (parse_text(s@), r) {
            (None, None) => true,
            (Some(v), Some(jx)) => jx.jv() == v,
            _ => false,
        },
{
    let n = s.unicode_len();
    let f: u64 = (n as u64) + 1;
    match p_val_exec(s, n, 0, f) {
        None => None,
        Some((v, j)) => {
            let j0 = skip_ws_exec(s, n, j);
            if j0 == n {
                Some(v)
            } else {
                None
            }
        },
    }
}

} // verus!
