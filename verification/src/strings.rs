use vstd::prelude::*;
use vstd::string::StrSliceExecFns;

verus! {

// Path strings are compared by the lexicographic order on their characters
// (by Unicode code point).  This order drives the folder-list invariant of a
// resolved job: a strict descendant path is a strict extension of its
// ancestor's path, so it sorts strictly after the ancestor, and deleting the
// sorted list in reverse removes every descendant before its ancestor.

/// Lexicographic order on character sequences, by code point.
pub open spec fn lex_le(a: Seq<char>, b: Seq<char>) -> bool
    decreases a.len(),
{
    if a.len() == 0 {
        true
    } else if b.len() == 0 {
        false
    } else if a.first() == b.first() {
        lex_le(a.drop_first(), b.drop_first())
    } else {
        a.first() < b.first()
    }
}

/// Strict lexicographic order.
pub open spec fn lex_lt(a: Seq<char>, b: Seq<char>) -> bool {
    lex_le(a, b) && a != b
}

/// The lexicographic order is total.
pub proof fn lemma_lex_le_total(a: Seq<char>, b: Seq<char>)
    ensures
        lex_le(a, b) || lex_le(b, a),
    decreases a.len(),
{
    if a.len() != 0 && b.len() != 0 {
        let ca = a.first();
        let cb = b.first();
        if ca == cb {
            lemma_lex_le_total(a.drop_first(), b.drop_first());
        }
    }
}

/// The lexicographic order is antisymmetric.
pub proof fn lemma_lex_le_antisymmetric(a: Seq<char>, b: Seq<char>)
    requires
        lex_le(a, b),
        lex_le(b, a),
    ensures
        a == b,
    decreases a.len(),
{
    if a.len() == 0 {
        assert(b.len() == 0);
        assert(a =~= b);
    } else {
        assert(b.len() != 0);
        assert(a.first() == b.first());
        lemma_lex_le_antisymmetric(a.drop_first(), b.drop_first());
        assert(a.len() == b.len());
        assert forall|i: int| 0 <= i < a.len() implies a[i] == b[i] by {
            if i > 0 {
                assert(a[i] == a.drop_first()[i - 1]);
                assert(b[i] == b.drop_first()[i - 1]);
            }
        }
        assert(a =~= b);
    }
}

/// The lexicographic order is transitive.
pub proof fn lemma_lex_le_transitive(a: Seq<char>, b: Seq<char>, c: Seq<char>)
    requires
        lex_le(a, b),
        lex_le(b, c),
    ensures
        lex_le(a, c),
    decreases a.len(),
{
    if a.len() != 0 && b.len() != 0 && c.len() != 0 {
        if a.first() == b.first() && b.first() == c.first() {
            lemma_lex_le_transitive(a.drop_first(), b.drop_first(), c.drop_first());
        }
    }
}

/// A prefix sorts no later than any of its extensions.
pub proof fn lemma_lex_le_prefix(a: Seq<char>, b: Seq<char>)
    requires
        a.is_prefix_of(b),
    ensures
        lex_le(a, b),
    decreases a.len(),
{
    if a.len() != 0 {
        assert(a.first() == b.first());
        assert(a.drop_first().is_prefix_of(b.drop_first()));
        lemma_lex_le_prefix(a.drop_first(), b.drop_first());
    }
}

/// A proper prefix sorts strictly before any of its extensions.
pub proof fn lemma_lex_lt_proper_prefix(a: Seq<char>, b: Seq<char>)
    requires
        a.is_prefix_of(b),
        a.len() < b.len(),
    ensures
        lex_lt(a, b),
{
    lemma_lex_le_prefix(a, b);
}

/// Decides the lexicographic order on two strings.
pub fn str_le(a: &str, b: &str) -> (r: bool)
    ensures
        r == lex_le(a@, b@),
    decreases a@.len(),
{
    let na = a.unicode_len();
    let nb = b.unicode_len();
    if na == 0 {
        true
    } else if nb == 0 {
        false
    } else {
        let ca = a.get_char(0);
        let cb = b.get_char(0);
        if ca == cb {
            let ta = a.substring_char(1, na);
            let tb = b.substring_char(1, nb);
            proof {
                assert(ta@ =~= a@.drop_first());
                assert(tb@ =~= b@.drop_first());
            }
            str_le(ta, tb)
        } else {
            ca < cb
        }
    }
}

/// Whether `c` is an ASCII upper-case letter.
pub open spec fn ascii_upper(c: char) -> bool {
    65 <= c as u32 && c as u32 <= 90
}

/// Equality of two characters up to ASCII case.
pub open spec fn chars_nocase_eq(a: char, b: char) -> bool {
    a == b
    || (ascii_upper(a) && b as u32 == a as u32 + 32)
    || (ascii_upper(b) && a as u32 == b as u32 + 32)
}

/// Decides equality of two characters up to ASCII case.
pub fn char_nocase_eq(a: char, b: char) -> (r: bool)
    ensures
        r == chars_nocase_eq(a, b),
{
    let au = a as u32;
    let bu = b as u32;
    a == b || (65 <= au && au <= 90 && bu == au + 32) || (65 <= bu && bu <= 90 && au == bu + 32)
}

/// Whether `s` ends with `suf`, compared character by character up to ASCII
/// case.
pub open spec fn ends_with_nocase(s: Seq<char>, suf: Seq<char>) -> bool {
    s.len() >= suf.len()
    && forall|i: int| 0 <= i < suf.len()
        ==> chars_nocase_eq(s[s.len() - suf.len() + i], #[trigger] suf[i])
}

/// Decides whether `s` ends with `suf` up to ASCII case.
pub fn str_ends_with_nocase(s: &str, suf: &str) -> (r: bool)
    ensures
        r == ends_with_nocase(s@, suf@),
{
    let n = s.unicode_len();
    let m = suf.unicode_len();
    if n < m {
        return false;
    }
    let mut i: usize = 0;
    while i < m
        invariant
            0 <= i <= m,
            m <= n,
            n == s@.len(),
            m == suf@.len(),
            forall|j: int| 0 <= j < i
                ==> chars_nocase_eq(s@[s@.len() - suf@.len() + j], #[trigger] suf@[j]),
        decreases m - i,
    {
        if !char_nocase_eq(s.get_char(n - m + i), suf.get_char(i)) {
            return false;
        }
        i = i + 1;
    }
    true
}

/// Decides whether `p` is a prefix of `s`.
pub fn str_is_prefix(p: &str, s: &str) -> (r: bool)
    ensures
        r == p@.is_prefix_of(s@),
{
    let m = p.unicode_len();
    let n = s.unicode_len();
    if m > n {
        return false;
    }
    let mut i: usize = 0;
    while i < m
        invariant
            0 <= i <= m,
            m <= n,
            n == s@.len(),
            m == p@.len(),
            forall|j: int| 0 <= j < i ==> p@[j] == s@[j],
        decreases m - i,
    {
        if p.get_char(i) != s.get_char(i) {
            assert(!p@.is_prefix_of(s@)) by {
                assert(p@[i as int] != s@.subrange(0, p@.len() as int)[i as int]);
            }
            return false;
        }
        i = i + 1;
    }
    assert(p@ =~= s@.subrange(0, p@.len() as int));
    true
}

/// The part of `s` before its first `/`, or all of `s` if it has none.
pub fn leading_component(s: &str) -> (r: String)
    ensures
        r@.len() <= s@.len(),
        r@ == s@.take(r@.len() as int),
        forall|j: int| 0 <= j < r@.len() ==> s@[j] != '/',
        r@.len() < s@.len() ==> s@[r@.len() as int] == '/',
{
    let n = s.unicode_len();
    let mut i: usize = 0;
    while i < n && s.get_char(i) != '/'
        invariant
            0 <= i <= n,
            n == s@.len(),
            forall|j: int| 0 <= j < i ==> s@[j] != '/',
        decreases n - i,
    {
        i = i + 1;
    }
    let r = s.substring_char(0, i).to_owned();
    proof {
        assert(r@ =~= s@.take(i as int));
    }
    r
}

} // verus!
