//! Text utilities: case-insensitive comparison, substring search,
//! trimming, and lexicographic order over character sequences.

use vstd::prelude::*;

verus! {

/// The code point of `c` with ASCII capitals folded to lower case.
pub open spec fn fold_code(c: char) -> int {
    if 'A' <= c && c <= 'Z' {
        c as int + 32
    } else {
        c as int
    }
}

/// Character sequences equal up to ASCII case.
pub open spec fn eq_ignore_case(a: Seq<char>, b: Seq<char>) -> bool {
    a.len() == b.len() && forall|i: int| 0 <= i < a.len() ==> fold_code(a[i]) == fold_code(b[i])
}

/// ASCII-case-insensitive equality of two strings.
pub fn eq_ignore_ascii_case(a: &str, b: &str) -> (r: bool)
    ensures
        r == eq_ignore_case(a@, b@),
{
    let na = a.unicode_len();
    let nb = b.unicode_len();
    if na != nb {
        return false;
    }
    let mut i: usize = 0;
    while i < na
        invariant
            0 <= i <= na,
            na == a@.len(),
            na == b@.len(),
            forall|t: int| 0 <= t < i ==> fold_code(a@[t]) == fold_code(b@[t]),
        decreases na - i,
    {
        let ca = a.get_char(i) as u32;
        let cb = b.get_char(i) as u32;
        let fa = if 65 <= ca && ca <= 90 {
            ca + 32
        } else {
            ca
        };
        let fb = if 65 <= cb && cb <= 90 {
            cb + 32
        } else {
            cb
        };
        if fa != fb {
            return false;
        }
        i = i + 1;
    }
    true
}

/// The Unicode lower-case form of a character sequence, as
/// `str::to_lowercase` computes it: a function of the characters alone.
pub uninterp spec fn lower_of(s: Seq<char>) -> Seq<char>;

/// Relies on str::to_lowercase: the Unicode lower-case form of the text,
/// a function of the characters alone; an empty string stays empty.
#[verifier::external_body]
pub(crate) fn lowercase(s: &str) -> (r: String)
    ensures
        r@ == lower_of(s@),
        s@.len() == 0 ==> r@.len() == 0,
{
    s.to_lowercase()
}

/// `q` occurs in `t` starting at position `i`.
pub open spec fn contains_at(t: Seq<char>, q: Seq<char>, i: int) -> bool {
    0 <= i && i + q.len() <= t.len() && t.subrange(i, i + q.len()) == q
}

/// `q` occurs somewhere in `t`.
pub open spec fn contains_seq(t: Seq<char>, q: Seq<char>) -> bool {
    exists|i: int| contains_at(t, q, i)
}

/// Whether `q` occurs in `t` as a contiguous run of characters.
pub fn contains_sub(t: &str, q: &str) -> (r: bool)
    ensures
        r == contains_seq(t@, q@),
{
    let nt = t.unicode_len();
    let nq = q.unicode_len();
    if nq > nt {
        proof {
            assert(forall|i: int| !contains_at(t@, q@, i));
        }
        return false;
    }
    let mut i: usize = 0;
    while i <= nt - nq
        invariant
            0 <= i <= nt - nq + 1,
            nq <= nt,
            nt == t@.len(),
            nq == q@.len(),
            forall|p: int| 0 <= p < i ==> !contains_at(t@, q@, p),
        decreases nt - nq + 1 - i,
    {
        let mut j: usize = 0;
        let mut hit = true;
        while j < nq
            invariant_except_break
                hit,
            invariant
                0 <= j <= nq,
                0 <= i <= nt - nq,
                nt == t@.len(),
                nq == q@.len(),
                hit ==> forall|u: int| 0 <= u < j ==> t@[i + u] == q@[u],
            ensures
                0 <= j <= nq,
                hit ==> forall|u: int| 0 <= u < j ==> t@[i + u] == q@[u],
                hit ==> j == nq,
                !hit ==> exists|u: int| 0 <= u < nq && t@[i + u] != q@[u],
            decreases nq - j,
        {
            if t.get_char(i + j) != q.get_char(j) {
                proof {
                    assert(exists|u: int| 0 <= u < nq && t@[i + u] != q@[u]) by {
                        assert(0 <= j < nq && t@[i + j as int] != q@[j as int]);
                    }
                }
                hit = false;
                break ;
            }
            j = j + 1;
        }
        if hit {
            proof {
                assert(t@.subrange(i as int, i + nq) =~= q@);
                assert(contains_at(t@, q@, i as int));
            }
            return true;
        }
        proof {
            let u = choose|u: int| 0 <= u < nq && t@[i + u] != q@[u];
            assert(t@.subrange(i as int, i + nq)[u] == t@[i + u]);
            assert(!contains_at(t@, q@, i as int));
        }
        i = i + 1;
    }
    proof {
        assert forall|p: int| !contains_at(t@, q@, p) by {
            if 0 <= p < i {
            } else if p > nt - nq {
            }
        }
    }
    false
}

/// Equality of two strings, character by character.
pub fn str_eq(a: &str, b: &str) -> (r: bool)
    ensures
        r == (a@ == b@),
{
    let na = a.unicode_len();
    let nb = b.unicode_len();
    if na != nb {
        return false;
    }
    let mut i: usize = 0;
    while i < na
        invariant
            0 <= i <= na,
            na == a@.len(),
            na == b@.len(),
            forall|t: int| 0 <= t < i ==> a@[t] == b@[t],
        decreases na - i,
    {
        if a.get_char(i) != b.get_char(i) {
            return false;
        }
        i = i + 1;
    }
    proof {
        assert(a@ =~= b@);
    }
    true
}

/// ASCII whitespace.
pub open spec fn is_space(c: char) -> bool {
    c == ' ' || c == '\t' || c == '\n' || c == '\r'
}

/// Length of the longest whitespace prefix.
pub open spec fn space_prefix_len(s: Seq<char>) -> int
    decreases s.len(),
{
    if s.len() == 0 || !is_space(s[0]) {
        0
    } else {
        1 + space_prefix_len(s.skip(1))
    }
}

/// Length of the longest whitespace suffix.
pub open spec fn space_suffix_len(s: Seq<char>) -> int
    decreases s.len(),
{
    if s.len() == 0 || !is_space(s.last()) {
        0
    } else {
        1 + space_suffix_len(s.drop_last())
    }
}

/// `s` with leading and trailing ASCII whitespace removed.
pub open spec fn trim_spec(s: Seq<char>) -> Seq<char> {
    let a = space_prefix_len(s);
    if a == s.len() {
        Seq::<char>::empty()
    } else {
        s.subrange(a, s.len() - space_suffix_len(s))
    }
}

proof fn lemma_space_prefix_at(s: Seq<char>, p: int)
    requires
        0 <= p <= s.len(),
        forall|i: int| 0 <= i < p ==> is_space(#[trigger] s[i]),
        p < s.len() ==> !is_space(s[p]),
    ensures
        space_prefix_len(s) == p,
    decreases s.len(),
{
    if p == 0 {
    } else {
        assert(forall|i: int| 0 <= i < p - 1 ==> is_space(#[trigger] s.skip(1)[i]) && s.skip(1)[i]
            == s[i + 1]);
        lemma_space_prefix_at(s.skip(1), p - 1);
    }
}

proof fn lemma_space_suffix_at(s: Seq<char>, p: int)
    requires
        0 <= p <= s.len(),
        forall|i: int| s.len() - p <= i < s.len() ==> is_space(#[trigger] s[i]),
        p < s.len() ==> !is_space(s[s.len() - p - 1]),
    ensures
        space_suffix_len(s) == p,
    decreases s.len(),
{
    if p == 0 {
    } else {
        assert(is_space(s.last()));
        assert(forall|i: int| s.len() - p <= i < s.len() - 1 ==> is_space(
            #[trigger] s.drop_last()[i],
        ) && s.drop_last()[i] == s[i]);
        lemma_space_suffix_at(s.drop_last(), p - 1);
    }
}

/// Remove leading and trailing ASCII whitespace.
pub fn trim_ascii(s: &str) -> (r: &str)
    ensures
        r@ == trim_spec(s@),
{
    let n = s.unicode_len();
    let mut a: usize = 0;
    loop
        invariant
            0 <= a <= n,
            n == s@.len(),
            forall|i: int| 0 <= i < a ==> is_space(#[trigger] s@[i]),
        ensures
            0 <= a <= n,
            forall|i: int| 0 <= i < a ==> is_space(#[trigger] s@[i]),
            a < n ==> !is_space(s@[a as int]),
        decreases n - a,
    {
        if a == n {
            break ;
        }
        let c = s.get_char(a);
        if !(c == ' ' || c == '\t' || c == '\n' || c == '\r') {
            break ;
        }
        a = a + 1;
    }
    if a == n {
        proof {
            lemma_space_prefix_at(s@, a as int);
            assert(""@ =~= Seq::<char>::empty()) by {
                reveal_strlit("");
            }
        }
        return "";
    }
    let mut b: usize = n;
    loop
        invariant
            a <= b <= n,
            n == s@.len(),
            a < n,
            !is_space(s@[a as int]),
            forall|i: int| b <= i < n ==> is_space(#[trigger] s@[i]),
        ensures
            a <= b <= n,
            forall|i: int| b <= i < n ==> is_space(#[trigger] s@[i]),
            b > a ==> !is_space(s@[b - 1]),
        decreases b,
    {
        if b == a {
            break ;
        }
        let c = s.get_char(b - 1);
        if !(c == ' ' || c == '\t' || c == '\n' || c == '\r') {
            break ;
        }
        b = b - 1;
    }
    proof {
        assert(b > a);
        lemma_space_prefix_at(s@, a as int);
        lemma_space_suffix_at(s@, n - b);
    }
    s.substring_char(a, b)
}

/// Lexicographic order on character sequences by code point.
pub open spec fn str_le(a: Seq<char>, b: Seq<char>) -> bool
    decreases a.len(),
{
    if a.len() == 0 {
        true
    } else if b.len() == 0 {
        false
    } else if (a[0] as int) < (b[0] as int) {
        true
    } else if (a[0] as int) > (b[0] as int) {
        false
    } else {
        str_le(a.skip(1), b.skip(1))
    }
}

/// The order is total.
pub proof fn lemma_str_le_total(a: Seq<char>, b: Seq<char>)
    ensures
        str_le(a, b) || str_le(b, a),
    decreases a.len(),
{
    if a.len() != 0 && b.len() != 0 && a[0] == b[0] {
        lemma_str_le_total(a.skip(1), b.skip(1));
    }
}

/// Whether `a` comes before `b` (or equals it) in lexicographic order.
pub fn str_le_exec(a: &str, b: &str) -> (r: bool)
    ensures
        r == str_le(a@, b@),
{
    let na = a.unicode_len();
    let nb = b.unicode_len();
    let mut i: usize = 0;
    proof {
        assert(a@.skip(0) =~= a@);
        assert(b@.skip(0) =~= b@);
    }
    loop
        invariant
            0 <= i <= na,
            i <= nb,
            na == a@.len(),
            nb == b@.len(),
            str_le(a@, b@) == str_le(a@.skip(i as int), b@.skip(i as int)),
        decreases na - i,
    {
        if i == na {
            proof {
                assert(a@.skip(i as int).len() == 0);
            }
            return true;
        }
        if i == nb {
            proof {
                assert(b@.skip(i as int).len() == 0);
                assert(a@.skip(i as int).len() > 0);
            }
            return false;
        }
        let ca = a.get_char(i) as u32;
        let cb = b.get_char(i) as u32;
        proof {
            assert(a@.skip(i as int)[0] == a@[i as int]);
            assert(b@.skip(i as int)[0] == b@[i as int]);
        }
        if ca < cb {
            return true;
        }
        if ca > cb {
            return false;
        }
        proof {
            assert(a@.skip(i as int).skip(1) =~= a@.skip(i + 1));
            assert(b@.skip(i as int).skip(1) =~= b@.skip(i + 1));
        }
        i = i + 1;
    }
}

} // verus!
