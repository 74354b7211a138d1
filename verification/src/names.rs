//! Sorted lists of distinct names, used for the property columns of CSV
//! output.

use vstd::prelude::*;
use crate::text::{chars_lt, lemma_chars_lt_asymmetric, lemma_chars_lt_irreflexive, lemma_chars_lt_total, lemma_chars_lt_transitive, str_eq, str_less};

verus! {

/// Each name precedes every later one, so no name occurs twice.
pub open spec fn strictly_sorted(s: Seq<Seq<char>>) -> bool {
    forall|i: int, j: int| 0 <= i < j < s.len() ==> chars_lt(#[trigger] s[i], #[trigger] s[j])
}

/// The names of a finite set in increasing order.
pub open spec fn sorted_names(names: Set<Seq<char>>) -> Seq<Seq<char>> {
    choose|s: Seq<Seq<char>>| strictly_sorted(s) && s.to_set() == names
}

/// Two sorted lists with the same names are the same list.
pub proof fn lemma_sorted_unique(s1: Seq<Seq<char>>, s2: Seq<Seq<char>>)
    requires
        strictly_sorted(s1),
        strictly_sorted(s2),
        s1.to_set() == s2.to_set(),
    ensures
        s1 == s2,
    decreases s1.len(),
{
    if s1.len() == 0 {
        if s2.len() > 0 {
            assert(s2.to_set().contains(s2[0]));
        }
        assert(s1 =~= s2);
    } else {
        assert(s1.to_set().contains(s1[0]));
        assert(s2.len() > 0);
        assert(s2.to_set().contains(s2[0]));
        let k = choose|k: int| 0 <= k < s2.len() && s2[k] == s1[0];
        let l = choose|l: int| 0 <= l < s1.len() && s1[l] == s2[0];
        if k > 0 {
            assert(chars_lt(s2[0], s2[k]));
            if l > 0 {
                assert(chars_lt(s1[0], s1[l]));
                lemma_chars_lt_asymmetric(s1[0], s2[0]);
            } else {
                lemma_chars_lt_irreflexive(s1[0]);
            }
        }
        assert(s1[0] == s2[0]);
        let t1 = s1.drop_first();
        let t2 = s2.drop_first();
        assert forall|x: Seq<char>| t1.to_set().contains(x) implies t2.to_set().contains(x) by {
            let i = choose|i: int| 0 <= i < t1.len() && t1[i] == x;
            assert(s1[i + 1] == x);
            assert(s1.to_set().contains(x));
            let j = choose|j: int| 0 <= j < s2.len() && s2[j] == x;
            if j == 0 {
                assert(chars_lt(s1[0], s1[i + 1]));
                lemma_chars_lt_irreflexive(x);
            }
            assert(t2[j - 1] == x);
        }
        assert forall|x: Seq<char>| t2.to_set().contains(x) implies t1.to_set().contains(x) by {
            let i = choose|i: int| 0 <= i < t2.len() && t2[i] == x;
            assert(s2[i + 1] == x);
            assert(s2.to_set().contains(x));
            let j = choose|j: int| 0 <= j < s1.len() && s1[j] == x;
            if j == 0 {
                assert(chars_lt(s2[0], s2[i + 1]));
                lemma_chars_lt_irreflexive(x);
            }
            assert(t1[j - 1] == x);
        }
        assert(t1.to_set() =~= t2.to_set());
        lemma_sorted_unique(t1, t2);
        assert(s1 =~= seq![s1[0]] + t1);
        assert(s2 =~= seq![s2[0]] + t2);
    }
}

/// A sorted list of a set's names is the one `sorted_names` picks.
pub proof fn lemma_sorted_names_is(s: Seq<Seq<char>>)
    requires
        strictly_sorted(s),
    ensures
        sorted_names(s.to_set()) == s,
{
    let t = sorted_names(s.to_set());
    assert(strictly_sorted(t) && t.to_set() == s.to_set());
    lemma_sorted_unique(t, s);
}

/// Adds a name to a sorted list of distinct names, keeping it sorted; a name
/// already present is not added again.
pub fn insert_sorted(names: &mut Vec<String>, name: &String)
    requires
        strictly_sorted(old(names).deep_view()),
    ensures
        strictly_sorted(final(names).deep_view()),
        final(names).deep_view().to_set() == old(names).deep_view().to_set().insert(name@),
{
    let ghost before = names.deep_view();
    let mut i: usize = 0;
    while i < names.len()
        invariant
            i <= names.len(),
            names.deep_view() == before,
            forall|j: int| 0 <= j < i ==> chars_lt(#[trigger] before[j], name@),
        ensures
            i <= names.len(),
            names.deep_view() == before,
            forall|j: int| 0 <= j < i ==> chars_lt(#[trigger] before[j], name@),
            i < names.len() ==> !chars_lt(before[i as int], name@),
        decreases names.len() - i,
    {
        if !str_less(names[i].as_str(), name.as_str()) {
            break;
        }
        i += 1;
    }
    if i < names.len() && str_eq(names[i].as_str(), name.as_str()) {
        assert(before.to_set().contains(name@)) by {
            assert(before[i as int] == name@);
        }
        assert(before.to_set().insert(name@) =~= before.to_set());
        return;
    }
    proof {
        if i < names.len() {
            lemma_chars_lt_total(before[i as int], name@);
        }
    }
    names.insert(i, name.clone());
    let ghost after = names.deep_view();
    assert(after =~= before.insert(i as int, name@));
    assert forall|a: int, b: int| 0 <= a < b < after.len() implies chars_lt(
        #[trigger] after[a],
        #[trigger] after[b],
    ) by {
        if b < i {
        } else if b == i {
        } else if a < i {
            lemma_chars_lt_transitive(after[a], name@, after[i + 1]);
            if b > i + 1 {
                lemma_chars_lt_transitive(after[a], after[i + 1], after[b]);
            }
        } else if a == i {
            if b > i + 1 {
                lemma_chars_lt_transitive(name@, after[i + 1], after[b]);
            }
        } else {
        }
    }
    assert forall|x: Seq<char>| #[trigger] after.to_set().contains(x) <==> before.to_set().insert(
        name@,
    ).contains(x) by {
        if after.to_set().contains(x) {
            let k = choose|k: int| 0 <= k < after.len() && after[k] == x;
            if k < i {
                assert(before[k] == x);
            } else if k > i {
                assert(before[k - 1] == x);
            }
        }
        if before.to_set().contains(x) {
            let k = choose|k: int| 0 <= k < before.len() && before[k] == x;
            if k < i {
                assert(after[k] == x);
            } else {
                assert(after[k + 1] == x);
            }
        }
        if x == name@ {
            assert(after[i as int] == x);
        }
    }
    assert(after.to_set() =~= before.to_set().insert(name@));
}

} // verus!
