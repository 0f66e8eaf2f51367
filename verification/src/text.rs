//! Character-sequence utilities shared by the configuration parser and the
//! index: whitespace trimming, searching, equality and lexicographic order.

use vstd::prelude::*;

verus! {

/// Whitespace for the purposes of this library: spaces, tabs and carriage
/// returns (so lines of files with Windows line endings need no special
/// handling once split at `'\n'`).
pub open spec fn is_ws(c: char) -> bool {
    c == ' ' || c == '\t' || c == '\r'
}

/// Index of the first non-whitespace character of `l` at or after `i`,
/// or `l.len()` if there is none.
pub open spec fn skip_ws(l: Seq<char>, i: int) -> int
    decreases l.len() - i,
{
    if i < 0 || i >= l.len() {
        l.len() as int
    } else if is_ws(l[i]) {
        skip_ws(l, i + 1)
    } else {
        i
    }
}

/// End (exclusive) of `l` with trailing whitespace before position `j`
/// removed: the least `j' <= j` such that every character of `l[j'..j]`
/// is whitespace and `l[j' - 1]` is not.
pub open spec fn rtrim_idx(l: Seq<char>, j: int) -> int
    decreases j,
{
    if j <= 0 || j > l.len() {
        0
    } else if is_ws(l[j - 1]) {
        rtrim_idx(l, j - 1)
    } else {
        j
    }
}

/// `l` with leading and trailing whitespace removed.
pub open spec fn trimmed(l: Seq<char>) -> Seq<char> {
    let lo = skip_ws(l, 0);
    let hi = rtrim_idx(l, l.len() as int);
    if lo >= hi {
        Seq::empty()
    } else {
        l.subrange(lo, hi)
    }
}

/// Index of the first occurrence of `c` in `l` at or after `i`, or
/// `l.len()` if there is none.
pub open spec fn find_at(l: Seq<char>, c: char, i: int) -> int
    decreases l.len() - i,
{
    if i < 0 || i >= l.len() {
        l.len() as int
    } else if l[i] == c {
        i
    } else {
        find_at(l, c, i + 1)
    }
}

pub proof fn lemma_find_at_bounds(l: Seq<char>, c: char, i: int)
    requires
        0 <= i <= l.len(),
    ensures
        i <= find_at(l, c, i) <= l.len(),
    decreases l.len() - i,
{
    if i < l.len() && l[i] != c {
        lemma_find_at_bounds(l, c, i + 1);
    }
}

/// Strict lexicographic order on character sequences, by code point, with a
/// proper prefix ordered before its extensions.
pub open spec fn lex_lt(a: Seq<char>, b: Seq<char>) -> bool
    decreases a.len(),
{
    if b.len() == 0 {
        false
    } else if a.len() == 0 {
        true
    } else if a[0] != b[0] {
        (a[0] as int) < (b[0] as int)
    } else {
        lex_lt(a.subrange(1, a.len() as int), b.subrange(1, b.len() as int))
    }
}

pub proof fn lemma_rtrim_bounds(l: Seq<char>, j: int)
    requires
        0 <= j <= l.len(),
    ensures
        0 <= rtrim_idx(l, j) <= j,
    decreases j,
{
    if j > 0 && is_ws(l[j - 1]) {
        lemma_rtrim_bounds(l, j - 1);
    }
}

/// Two distinct sequences are ordered one way or the other: `lex_lt` with
/// equality is a total order.
pub proof fn lemma_lex_total(a: Seq<char>, b: Seq<char>)
    ensures
        a == b || lex_lt(a, b) || lex_lt(b, a),
    decreases a.len(),
{
    if b.len() == 0 {
        if a.len() == 0 {
            assert(a =~= b);
        }
    } else if a.len() == 0 {
    } else if a[0] != b[0] {
        assert((a[0] as int) != (b[0] as int));
    } else {
        let at = a.subrange(1, a.len() as int);
        let bt = b.subrange(1, b.len() as int);
        lemma_lex_total(at, bt);
        if at == bt {
            assert forall|i: int| 0 <= i < a.len() implies a[i] == b[i] by {
                if i > 0 {
                    assert(at[i - 1] == bt[i - 1]);
                }
            }
            assert(a =~= b);
        }
    }
}

/// `lex_lt` is transitive.
pub proof fn lemma_lex_trans(a: Seq<char>, b: Seq<char>, c: Seq<char>)
    requires
        lex_lt(a, b),
        lex_lt(b, c),
    ensures
        lex_lt(a, c),
    decreases a.len(),
{
    if a.len() == 0 {
    } else {
        if a[0] == b[0] && b[0] == c[0] {
            lemma_lex_trans(
                a.subrange(1, a.len() as int),
                b.subrange(1, b.len() as int),
                c.subrange(1, c.len() as int),
            );
        }
    }
}

fn is_ws_char(c: char) -> (r: bool)
    ensures
        r == is_ws(c),
{
    c == ' ' || c == '\t' || c == '\r'
}

/// `x` with leading and trailing whitespace removed.
pub fn str_trim<'a>(x: &'a str) -> (r: &'a str)
    ensures
        r@ == trimmed(x@),
{
    let n = x.unicode_len();
    let mut lo: usize = 0;
    while lo < n && is_ws_char(x.get_char(lo))
        invariant
            n == x@.len(),
            0 <= lo <= n,
            skip_ws(x@, 0) == skip_ws(x@, lo as int),
        decreases n - lo,
    {
        lo = lo + 1;
    }
    assert(skip_ws(x@, 0) == lo as int);
    let mut hi: usize = n;
    while hi > lo && is_ws_char(x.get_char(hi - 1))
        invariant
            n == x@.len(),
            lo <= hi <= n,
            rtrim_idx(x@, n as int) == rtrim_idx(x@, hi as int),
        decreases hi,
    {
        hi = hi - 1;
    }
    proof {
        lemma_rtrim_bounds(x@, hi as int);
    }
    if lo >= hi {
        let r = x.substring_char(n, n);
        assert(r@ =~= trimmed(x@));
        r
    } else {
        assert(rtrim_idx(x@, hi as int) == hi as int);
        x.substring_char(lo, hi)
    }
}

/// Whether `a` and `b` consist of the same characters.
pub fn str_eq(a: &str, b: &str) -> (r: bool)
    ensures
        r == (a@ == b@),
{
    let na = a.unicode_len();
    let nb = b.unicode_len();
    if na != nb {
        return false;
    }
    let mut i: usize = 0;
    while i < na
        invariant
            na == a@.len(),
            na == b@.len(),
            0 <= i <= na,
            forall|j: int| 0 <= j < i ==> a@[j] == b@[j],
        decreases na - i,
    {
        if a.get_char(i) != b.get_char(i) {
            return false;
        }
        i = i + 1;
    }
    assert(a@ =~= b@);
    true
}

/// Index of the first occurrence of `c` in `x` at or after `from`, or the
/// length of `x` if there is none.
pub fn find_char(x: &str, c: char, from: usize) -> (r: usize)
    requires
        from <= x@.len(),
    ensures
        r == find_at(x@, c, from as int),
        from <= r <= x@.len(),
{
    let n = x.unicode_len();
    let mut i: usize = from;
    while i < n && x.get_char(i) != c
        invariant
            n == x@.len(),
            from <= i <= n,
            find_at(x@, c, from as int) == find_at(x@, c, i as int),
        decreases n - i,
    {
        i = i + 1;
    }
    i
}

/// Whether `a` comes strictly before `b` in lexicographic order.
pub fn str_lex_lt(a: &str, b: &str) -> (r: bool)
    ensures
        r == lex_lt(a@, b@),
{
    let na = a.unicode_len();
    let nb = b.unicode_len();
    proof {
        assert(a@.subrange(0, na as int) =~= a@);
        assert(b@.subrange(0, nb as int) =~= b@);
    }
    let mut i: usize = 0;
    while i < na && i < nb
        invariant
            na == a@.len(),
            nb == b@.len(),
            0 <= i <= na,
            0 <= i <= nb,
            lex_lt(a@, b@) == lex_lt(
                a@.subrange(i as int, na as int),
                b@.subrange(i as int, nb as int),
            ),
        decreases na - i,
    {
        let ca = a.get_char(i);
        let cb = b.get_char(i);
        let ghost asub = a@.subrange(i as int, na as int);
        let ghost bsub = b@.subrange(i as int, nb as int);
        if ca != cb {
            proof {
                assert(asub[0] == ca && bsub[0] == cb);
                assert(ca as u32 as int == ca as int);
                assert(cb as u32 as int == cb as int);
            }
            return (ca as u32) < (cb as u32);
        }
        proof {
            assert(asub.subrange(1, asub.len() as int) =~= a@.subrange(
                i + 1,
                na as int,
            ));
            assert(bsub.subrange(1, bsub.len() as int) =~= b@.subrange(
                i + 1,
                nb as int,
            ));
        }
        i = i + 1;
    }
    proof {
        if i == na {
            assert(a@.subrange(i as int, na as int) =~= Seq::<char>::empty());
        }
        if i == nb {
            assert(b@.subrange(i as int, nb as int) =~= Seq::<char>::empty());
        }
    }
    na < nb
}

} // verus!
