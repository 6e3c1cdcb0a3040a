//! The in-app file browser: how directory entries are listed.
use vstd::prelude::*;
use vstd::multiset::Multiset;
use crate::text::{chars_of, compare_chars, text_before, TextOrder};
use crate::text::{lemma_before_irreflexive, lemma_before_total, lemma_before_transitive};

verus! {

broadcast use vstd::seq_lib::group_to_multiset_ensures;

/// Entry `a` (path text, is a directory) is listed strictly before `b`:
/// directories come first, then entries in the order of their paths.
pub open spec fn entry_before(a: (String, bool), b: (String, bool)) -> bool {
    ||| (a.1 && !b.1)
    ||| (a.1 == b.1 && text_before(a.0@, b.0@))
}

/// The entries are listed in order: no entry comes after one that should
/// follow it.
pub open spec fn entries_ordered(s: Seq<(String, bool)>) -> bool {
    forall|i: int, j: int| 0 <= i < j < s.len() ==> !entry_before(#[trigger] s[j], #[trigger] s[i])
}

proof fn lemma_entry_order(a: (String, bool), b: (String, bool), c: (String, bool))
    ensures
        entry_before(a, b) && !entry_before(c, b) ==> entry_before(a, c),
        entry_before(a, b) ==> !entry_before(b, a),
        entry_before(a, b) && (b == c || !entry_before(c, b)) ==> !entry_before(c, a),
{
    lemma_before_irreflexive(a.0@);
    lemma_before_total(a.0@, b.0@);
    lemma_before_total(b.0@, c.0@);
    lemma_before_total(a.0@, c.0@);
    if text_before(a.0@, b.0@) && text_before(b.0@, c.0@) {
        lemma_before_transitive(a.0@, b.0@, c.0@);
    }
    if text_before(c.0@, b.0@) && text_before(b.0@, a.0@) {
        lemma_before_transitive(c.0@, b.0@, a.0@);
    }
    if text_before(c.0@, a.0@) && text_before(a.0@, b.0@) {
        lemma_before_transitive(c.0@, a.0@, b.0@);
    }
    if text_before(b.0@, c.0@) && text_before(c.0@, a.0@) {
        lemma_before_transitive(b.0@, c.0@, a.0@);
    }
    if text_before(a.0@, c.0@) && text_before(c.0@, b.0@) {
        lemma_before_transitive(a.0@, c.0@, b.0@);
    }
    lemma_before_irreflexive(c.0@);
    if text_before(a.0@, b.0@) && text_before(b.0@, a.0@) {
        lemma_before_transitive(a.0@, b.0@, a.0@);
    }
    if text_before(a.0@, c.0@) && text_before(c.0@, a.0@) {
        lemma_before_transitive(a.0@, c.0@, a.0@);
    }
}

fn before_exec(a: &(String, bool), b: &(String, bool)) -> (r: bool)
    ensures
        r == entry_before(*a, *b),
{
    if a.1 != b.1 {
        return a.1;
    }
    let x = chars_of(a.0.as_str());
    let y = chars_of(b.0.as_str());
    match compare_chars(&x, &y) {
        TextOrder::Before => true,
        _ => false,
    }
}

/// The entries of a directory in listing order: directories first, then by
/// path text (for the entries of one directory, the order of their names).
pub fn order_entries(entries: Vec<(String, bool)>) -> (out: Vec<(String, bool)>)
    ensures
        out@.to_multiset() == entries@.to_multiset(),
        entries_ordered(out@),
{
    let mut out: Vec<(String, bool)> = Vec::new();
    let mut rest = entries;
    let ghost all = rest@;
    proof {
        assert(all.to_multiset() =~= out@.to_multiset().add(rest@.to_multiset()));
    }
    while rest.len() > 0
        invariant
            all.to_multiset() == out@.to_multiset().add(rest@.to_multiset()),
            entries_ordered(out@),
        decreases rest.len(),
    {
        let ghost before_rest = rest@;
        let x = rest.remove(0);
        proof {
            assert(before_rest.remove(0) == rest@);
            assert(before_rest.remove(0).to_multiset() =~= before_rest.to_multiset().remove(
                before_rest[0],
            ));
        }
        let mut p: usize = 0;
        while p < out.len()
            invariant_except_break
                p <= out.len(),
                forall|k: int| 0 <= k < p ==> !entry_before(x, #[trigger] out@[k]),
            ensures
                p <= out.len(),
                forall|k: int| 0 <= k < p ==> !entry_before(x, #[trigger] out@[k]),
                p < out.len() ==> entry_before(x, out@[p as int]),
            decreases out.len() - p,
        {
            if before_exec(&x, &out[p]) {
                break;
            }
            p += 1;
        }
        let ghost prev = out@;
        out.insert(p, x);
        proof {
            assert forall|i: int, j: int| 0 <= i < j < out@.len() implies !entry_before(
                #[trigger] out@[j],
                #[trigger] out@[i],
            ) by {
                if j < p {
                    assert(out@[i] == prev[i] && out@[j] == prev[j]);
                } else if j == p {
                    assert(out@[i] == prev[i]);
                } else if i < p {
                    assert(out@[i] == prev[i] && out@[j] == prev[j - 1]);
                } else if i == p {
                    assert(out@[j] == prev[j - 1]);
                    if j - 1 > p {
                        assert(!entry_before(prev[j - 1], prev[p as int]));
                    }
                    lemma_entry_order(x, prev[p as int], prev[j - 1]);
                } else {
                    assert(out@[i] == prev[i - 1] && out@[j] == prev[j - 1]);
                }
            }
            assert(out@.to_multiset() =~= prev.to_multiset().insert(x));
            assert(all.to_multiset() =~= out@.to_multiset().add(rest@.to_multiset()));
        }
    }
    proof {
        assert(rest@.to_multiset() =~= Multiset::empty());
        assert(out@.to_multiset().add(rest@.to_multiset()) =~= out@.to_multiset());
    }
    out
}

} // verus!
