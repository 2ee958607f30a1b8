//! The order of names: character by character, by code point, a prefix first — the
//! order of `String` (whose UTF-8 bytes compare in the same order).
use vstd::prelude::*;
use crate::text::chars_of;
use crate::buying::string_views;

verus! {

/// `a` comes no later than `b`.
pub open spec fn lex_le(a: Seq<char>, b: Seq<char>) -> bool
    decreases a.len(),
{
    if a.len() == 0 {
        true
    } else if b.len() == 0 {
        false
    } else if a[0] == b[0] {
        lex_le(a.drop_first(), b.drop_first())
    } else {
        (a[0] as int) < (b[0] as int)
    }
}

/// Any two names are ordered one way or the other.
pub proof fn lemma_lex_total(a: Seq<char>, b: Seq<char>)
    ensures
        lex_le(a, b) || lex_le(b, a),
    decreases a.len(),
{
    if a.len() > 0 && b.len() > 0 && a[0] == b[0] {
        lemma_lex_total(a.drop_first(), b.drop_first());
    }
}

/// The order is transitive.
pub proof fn lemma_lex_trans(a: Seq<char>, b: Seq<char>, c: Seq<char>)
    requires
        lex_le(a, b),
        lex_le(b, c),
    ensures
        lex_le(a, c),
    decreases a.len(),
{
    if a.len() > 0 && b.len() > 0 && c.len() > 0 && a[0] == b[0] && b[0] == c[0] {
        lemma_lex_trans(a.drop_first(), b.drop_first(), c.drop_first());
    }
}

/// The names are in order.
pub open spec fn names_sorted(s: Seq<Seq<char>>) -> bool {
    forall|i: int, j: int| 0 <= i < j < s.len() ==> lex_le(#[trigger] s[i], #[trigger] s[j])
}

/// The code point of `c`.
fn code(c: char) -> (r: u32)
    ensures
        r as int == c as int,
{
    c as u32
}

/// Whether `a` comes no later than `b`.
pub fn name_le(a: &[char], b: &[char]) -> (r: bool)
    ensures
        r == lex_le(a@, b@),
{
    let na = a.len();
    let nb = b.len();
    let mut i: usize = 0;
    assert(a@.subrange(0, na as int) =~= a@);
    assert(b@.subrange(0, nb as int) =~= b@);
    while i < na && i < nb && a[i] == b[i]
        invariant
            i <= na,
            i <= nb,
            na == a@.len(),
            nb == b@.len(),
            lex_le(a@, b@) == lex_le(a@.subrange(i as int, na as int), b@.subrange(i as int, nb as int)),
        decreases na - i,
    {
        let ghost sa = a@.subrange(i as int, na as int);
        let ghost sb = b@.subrange(i as int, nb as int);
        assert(sa.drop_first() =~= a@.subrange(i as int + 1, na as int));
        assert(sb.drop_first() =~= b@.subrange(i as int + 1, nb as int));
        assert(sa[0] == a@[i as int] && sb[0] == b@[i as int]);
        i = i + 1;
    }
    let ghost sa = a@.subrange(i as int, na as int);
    let ghost sb = b@.subrange(i as int, nb as int);
    if i == na {
        true
    } else if i == nb {
        false
    } else {
        assert(sa[0] == a@[i as int] && sb[0] == b@[i as int]);
        assert(a@[i as int] != b@[i as int]);
        assert(lex_le(sa, sb) == ((sa[0] as int) < (sb[0] as int)));
        code(a[i]) < code(b[i])
    }
}

/// Whether name `r[p]` comes no later than `x`.
fn le_at(r: &Vec<String>, p: usize, x: &[char]) -> (b: bool)
    requires
        p < r@.len(),
    ensures
        b == lex_le(r@[p as int]@, x@),
{
    let rc = chars_of(r[p].as_str());
    name_le(rc.as_slice(), x)
}

/// The names, sorted.
pub fn sort_names(names: Vec<String>) -> (r: Vec<String>)
    ensures
        names_sorted(string_views(r@)),
        string_views(r@).to_multiset() == string_views(names@).to_multiset(),
{
    broadcast use vstd::seq_lib::group_to_multiset_ensures;
    let mut r: Vec<String> = Vec::new();
    let mut k: usize = 0;
    while k < names.len()
        invariant
            k <= names@.len(),
            names_sorted(string_views(r@)),
            string_views(r@).to_multiset() == string_views(names@.take(k as int)).to_multiset(),
        decreases names@.len() - k,
    {
        let x = names[k].clone();
        let xc = chars_of(x.as_str());
        let ghost rv = string_views(r@);
        let mut p: usize = 0;
        while p < r.len() && le_at(&r, p, xc.as_slice())
            invariant
                p <= r@.len(),
                rv == string_views(r@),
                xc@ == x@,
                forall|i: int| 0 <= i < p ==> lex_le(#[trigger] rv[i], x@),
            decreases r@.len() - p,
        {
            assert(rv[p as int] == r@[p as int]@);
            p = p + 1;
        }
        proof {
            if p < rv.len() {
                assert(rv[p as int] == r@[p as int]@);
                assert(!lex_le(rv[p as int], x@));
                lemma_lex_total(rv[p as int], x@);
                assert forall|j: int| p <= j < rv.len() implies lex_le(x@, #[trigger] rv[j]) by {
                    if j > p {
                        assert(lex_le(rv[p as int], rv[j]));
                        lemma_lex_trans(x@, rv[p as int], rv[j]);
                    }
                }
            }
        }
        r.insert(p, x);
        proof {
            let nv = string_views(r@);
            assert(nv =~= rv.insert(p as int, x@));
            assert forall|i: int, j: int| 0 <= i < j < nv.len() implies lex_le(#[trigger] nv[i], #[trigger] nv[j]) by {
                if j < p {
                    assert(nv[i] == rv[i] && nv[j] == rv[j]);
                } else if j == p {
                    assert(nv[i] == rv[i]);
                } else if i < p {
                    assert(nv[i] == rv[i] && nv[j] == rv[j - 1]);
                    assert(lex_le(rv[i], x@));
                    assert(lex_le(x@, rv[j - 1]));
                    lemma_lex_trans(rv[i], x@, rv[j - 1]);
                } else if i == p {
                    assert(nv[j] == rv[j - 1]);
                } else {
                    assert(nv[i] == rv[i - 1] && nv[j] == rv[j - 1]);
                }
            }
            assert(string_views(names@.take(k as int + 1)) =~= string_views(names@.take(k as int)).push(x@));
            vstd::seq_lib::to_multiset_insert(rv, p as int, x@);
            vstd::seq_lib::to_multiset_build(string_views(names@.take(k as int)), x@);
            assert(nv.to_multiset() == rv.to_multiset().insert(x@));
            let tk = string_views(names@.take(k as int));
            assert(tk.push(x@).to_multiset() =~= tk.to_multiset().insert(x@));
            assert(string_views(names@.take(k as int + 1)).to_multiset() == tk.to_multiset().insert(x@));
        }
        k = k + 1;
    }
    assert(names@.take(names@.len() as int) =~= names@);
    r
}

} // verus!

