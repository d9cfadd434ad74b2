//! Small verified text helpers: equality, substring search, lower-casing,
//! and joining lines.

use vstd::prelude::*;

verus! {

/// Are two strings the same sequence of characters?
pub fn str_eq(a: &str, b: &str) -> (r: bool)
    ensures
        r == (a@ == b@),
{
    let na = a.unicode_len();
    let nb = b.unicode_len();
    if na != nb {
        return false;
    }
    let mut k: usize = 0;
    while k < na
        invariant
            na == a@.len(),
            na == b@.len(),
            k <= na,
            forall|q: int| 0 <= q < k ==> a@[q] == b@[q],
        decreases na - k,
    {
        if a.get_char(k) != b.get_char(k) {
            return false;
        }
        k = k + 1;
    }
    proof {
        assert(a@ =~= b@);
    }
    true
}

/// Does `nee` occur in `hay` as a contiguous run?
pub open spec fn contains_seq(hay: Seq<char>, nee: Seq<char>) -> bool {
    exists|k: int|
        0 <= k && k + nee.len() <= hay.len() && #[trigger] hay.subrange(k, k + nee.len()) == nee
}

/// Substring search, executably.
pub fn str_contains(hay: &str, nee: &str) -> (r: bool)
    ensures
        r == contains_seq(hay@, nee@),
{
    let n = hay.unicode_len();
    let m = nee.unicode_len();
    if m > n {
        return false;
    }
    if m == 0 {
        proof {
            assert(hay@.subrange(0, 0 + nee@.len() as int) =~= nee@);
        }
        return true;
    }
    let mut k: usize = 0;
    while k <= n - m
        invariant
            n == hay@.len(),
            m == nee@.len(),
            0 < m <= n,
            k <= n - m + 1,
            forall|q: int|
                0 <= q < k ==> #[trigger] hay@.subrange(q, q + nee@.len()) != nee@,
        decreases n - m - k + 1,
    {
        let mut j: usize = 0;
        let mut hit = true;
        while j < m
            invariant
                n == hay@.len(),
                m == nee@.len(),
                k + m <= n,
                j <= m,
                hit ==> forall|q: int| 0 <= q < j ==> hay@[k + q] == nee@[q],
                !hit ==> hay@.subrange(k as int, k + nee@.len()) != nee@,
            decreases m - j,
        {
            if hay.get_char(k + j) != nee.get_char(j) {
                proof {
                    assert(hay@.subrange(k as int, k + nee@.len())[j as int] != nee@[j as int]);
                }
                hit = false;
                j = m;
            } else {
                j = j + 1;
            }
        }
        if hit {
            proof {
                assert(hay@.subrange(k as int, k + nee@.len()) =~= nee@);
            }
            return true;
        }
        k = k + 1;
    }
    proof {
        assert forall|q: int| 0 <= q && q + nee@.len() <= hay@.len() implies #[trigger] hay@
            .subrange(q, q + nee@.len()) != nee@ by {
            assert(q < k);
        }
    }
    false
}

/// ASCII lower-casing of one character.
pub open spec fn lower_char(c: char) -> char {
    if 65 <= c as u32 <= 90 {
        (((c as u32) + 32) as u8) as char
    } else {
        c
    }
}

/// ASCII lower-casing of a text.
pub open spec fn lower_seq(s: Seq<char>) -> Seq<char> {
    Seq::new(s.len(), |i: int| lower_char(s[i]))
}

/// ASCII lower-casing, executably.
pub fn to_lower(s: &str) -> (out: String)
    ensures
        out@ == lower_seq(s@),
{
    let n = s.unicode_len();
    let mut out = String::new();
    let mut i: usize = 0;
    while i < n
        invariant
            n == s@.len(),
            i <= n,
            out@.len() == i,
            forall|q: int| 0 <= q < i ==> out@[q] == lower_char(s@[q]),
        decreases n - i,
    {
        let c = s.get_char(i);
        let u = c as u32;
        if 65 <= u && u <= 90 {
            let lowers = "abcdefghijklmnopqrstuvwxyz";
            proof {
                reveal_strlit("abcdefghijklmnopqrstuvwxyz");
            }
            let idx = (u - 65) as usize;
            let piece = lowers.substring_char(idx, idx + 1);
            out.append(piece);
            proof {
                assert(out@[i as int] == lower_char(s@[i as int]));
            }
        } else {
            let piece = s.substring_char(i, i + 1);
            out.append(piece);
            proof {
                assert(out@[i as int] == lower_char(s@[i as int]));
            }
        }
        i = i + 1;
    }
    proof {
        assert(out@ =~= lower_seq(s@));
    }
    out
}

/// Texts joined with a newline between each pair.
pub open spec fn join_nl(msgs: Seq<Seq<char>>) -> Seq<char>
    decreases msgs.len(),
{
    if msgs.len() == 0 {
        Seq::empty()
    } else if msgs.len() == 1 {
        msgs[0]
    } else {
        msgs[0] + seq!['\n'] + join_nl(msgs.drop_first())
    }
}

/// Joining after adding one more text appends a newline and that text.
pub proof fn lemma_join_nl_push(msgs: Seq<Seq<char>>, m: Seq<char>)
    ensures
        join_nl(msgs.push(m)) == if msgs.len() == 0 {
            m
        } else {
            join_nl(msgs) + seq!['\n'] + m
        },
    decreases msgs.len(),
{
    if msgs.len() == 0 {
        assert(msgs.push(m)[0] == m);
    } else if msgs.len() == 1 {
        assert(msgs.push(m).drop_first() =~= seq![m]);
        assert(join_nl(seq![m]) == m);
        assert(join_nl(msgs.push(m)) == msgs[0] + seq!['\n'] + m);
    } else {
        lemma_join_nl_push(msgs.drop_first(), m);
        assert(msgs.push(m).drop_first() =~= msgs.drop_first().push(m));
        assert(join_nl(msgs) + seq!['\n'] + m =~= msgs[0] + seq!['\n'] + (join_nl(
            msgs.drop_first(),
        ) + seq!['\n'] + m));
    }
}

} // verus!
