use vstd::prelude::*;

verus! {

/// No value occurs twice in the sequence.
pub open spec fn no_dups(s: Seq<u64>) -> bool {
    forall|i: int, j: int| 0 <= i < j < s.len() ==> s[i] != s[j]
}

/// The predicate that keeps every value other than `id`.
pub open spec fn keep_other(id: u64) -> spec_fn(u64) -> bool {
    |t: u64| t != id
}

/// Filtering commutes with appending one element.
pub proof fn lemma_filter_push(s: Seq<u64>, p: spec_fn(u64) -> bool, x: u64)
    ensures
        s.push(x).filter(p) == if p(x) {
            s.filter(p).push(x)
        } else {
            s.filter(p)
        },
{
    reveal(Seq::filter);
    assert(s.push(x).drop_last() == s);
    assert(s.push(x).last() == x);
}

/// What filtering keeps: exactly the values of `s` that satisfy `p`, and it
/// never introduces a duplicate that `s` did not have.
pub proof fn lemma_filter_props(s: Seq<u64>, p: spec_fn(u64) -> bool)
    ensures
        forall|x: u64| #[trigger] s.filter(p).contains(x) <==> s.contains(x) && p(x),
        no_dups(s) ==> no_dups(s.filter(p)),
        s.filter(p).len() <= s.len(),
    decreases s.len(),
{
    reveal(Seq::filter);
    if s.len() == 0 {
        assert forall|x: u64| !(#[trigger] s.filter(p).contains(x)) && !s.contains(x) by {
            assert(s.filter(p).len() == 0);
        }
    } else {
        let t = s.drop_last();
        let last = s.last();
        lemma_filter_props(t, p);
        assert(s == t.push(last));
        lemma_filter_push(t, p, last);
        assert forall|x: u64| #[trigger] s.filter(p).contains(x) <==> s.contains(x) && p(x) by {
            lemma_push_contains(t, last, x);
            if p(last) {
                lemma_push_contains(t.filter(p), last, x);
            }
        }
        if no_dups(s) {
            assert(no_dups(t)) by {
                assert forall|i: int, j: int| 0 <= i < j < t.len() implies t[i] != t[j] by {
                    assert(s[i] == t[i] && s[j] == t[j]);
                }
            }
            if p(last) {
                let f = t.filter(p);
                assert(!t.contains(last)) by {
                    if t.contains(last) {
                        let k = choose|k: int| 0 <= k < t.len() && t[k] == last;
                        assert(s[k] == s[s.len() - 1]);
                    }
                }
                assert(!f.contains(last));
                assert forall|i: int, j: int|
                    0 <= i < j < f.push(last).len() implies f.push(last)[i] != f.push(
                    last,
                )[j] by {
                    if j < f.len() {
                        assert(f[i] != f[j]);
                    } else {
                        assert(f.push(last)[j] == last);
                        assert(f.push(last)[i] == f[i]);
                        assert(f.contains(f[i]));
                    }
                }
            }
        }
    }
}

/// A value is in `s.push(x)` exactly when it is in `s` or equals `x`.
pub proof fn lemma_push_contains(s: Seq<u64>, x: u64, y: u64)
    ensures
        s.push(x).contains(y) <==> s.contains(y) || y == x,
{
    if s.contains(y) {
        let k = choose|k: int| 0 <= k < s.len() && s[k] == y;
        assert(s.push(x)[k] == y);
    }
    if y == x {
        assert(s.push(x)[s.len() as int] == y);
    }
    if s.push(x).contains(y) {
        let k = choose|k: int| 0 <= k < s.push(x).len() && s.push(x)[k] == y;
        if k < s.len() {
            assert(s[k] == y);
        }
    }
}

} // verus!
