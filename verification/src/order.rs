use vstd::prelude::*;
use vstd::string::StrSliceExecFns;

verus! {

/// Lexicographic comparison of two character sequences from position `i` on:
/// true when `a` comes strictly before `b`, ordering characters by code point
/// and a proper prefix before its extensions.
pub open spec fn lex_lt_from(a: Seq<char>, b: Seq<char>, i: int) -> bool
    decreases a.len() - i,
{
    if i >= b.len() {
        false
    } else if i >= a.len() {
        true
    } else if a[i] != b[i] {
        (a[i] as u32) < (b[i] as u32)
    } else {
        lex_lt_from(a, b, i + 1)
    }
}

/// `a` comes strictly before `b` in lexicographic order.
pub open spec fn lex_lt(a: Seq<char>, b: Seq<char>) -> bool {
    lex_lt_from(a, b, 0)
}

/// The order never relates a sequence to itself.
pub proof fn lemma_lex_lt_irreflexive(a: Seq<char>, i: int)
    ensures
        !lex_lt_from(a, a, i),
    decreases a.len() - i,
{
    if i < a.len() {
        lemma_lex_lt_irreflexive(a, i + 1);
    }
}

/// The order is transitive from any common position on.
pub proof fn lemma_lex_lt_transitive(a: Seq<char>, b: Seq<char>, c: Seq<char>, i: int)
    requires
        lex_lt_from(a, b, i),
        lex_lt_from(b, c, i),
    ensures
        lex_lt_from(a, c, i),
    decreases a.len() - i,
{
    if i < a.len() && i < b.len() && i < c.len() && a[i] == b[i] && b[i] == c[i] {
        lemma_lex_lt_transitive(a, b, c, i + 1);
    }
}

fn str_lt_from(a: &str, b: &str, i: usize) -> (r: bool)
    ensures
        r == lex_lt_from(a@, b@, i as int),
    decreases a@.len() - i,
{
    let blen = b.unicode_len();
    if i >= blen {
        return false;
    }
    let alen = a.unicode_len();
    if i >= alen {
        return true;
    }
    let ca = a.get_char(i);
    let cb = b.get_char(i);
    if ca != cb {
        (ca as u32) < (cb as u32)
    } else {
        str_lt_from(a, b, i + 1)
    }
}

/// Decides the strict lexicographic order on the character sequences of two
/// strings.
pub fn str_lex_lt(a: &str, b: &str) -> (r: bool)
    ensures
        r == lex_lt(a@, b@),
{
    str_lt_from(a, b, 0)
}

/// Decides equality of the character sequences of two strings.
pub fn str_eq(a: &str, b: &str) -> (r: bool)
    ensures
        r == (a@ == b@),
{
    let alen = a.unicode_len();
    let blen = b.unicode_len();
    if alen != blen {
        return false;
    }
    let mut i: usize = 0;
    while i < alen
        invariant
            i <= alen,
            alen == a@.len(),
            blen == b@.len(),
            alen == blen,
            forall|j: int| 0 <= j < i ==> a@[j] == b@[j],
        decreases alen - i,
    {
        let ca = a.get_char(i);
        let cb = b.get_char(i);
        if ca != cb {
            return false;
        }
        i += 1;
    }
    proof {
        assert(a@ =~= b@);
    }
    true
}

} // verus!
