use vstd::prelude::*;

use crate::campaign::text_views;
use crate::text::{
    lemma_text_le_total_ordering, lemma_text_lt_total, lemma_text_lt_transitive, text_le, text_less,
    text_lt,
};

verus! {

/// Ids in strictly increasing byte order: a set in canonical order.
pub open spec fn strictly_sorted(ids: Seq<Seq<char>>) -> bool {
    forall|a: int, b: int| 0 <= a < b < ids.len() ==> text_lt(#[trigger] ids[a], #[trigger] ids[b])
}

/// The ids of a set in increasing byte order.
pub open spec fn sorted_of(set: Set<Seq<char>>) -> Seq<Seq<char>> {
    choose|ids: Seq<Seq<char>>| strictly_sorted(ids) && ids.to_set() == set
}

/// A set of ids stored as a strictly increasing vector.
pub open spec fn id_set(ids: Vec<String>) -> Set<Seq<char>> {
    text_views(ids@).to_set()
}

pub open spec fn stored_sorted(ids: Vec<String>) -> bool {
    strictly_sorted(text_views(ids@))
}

/// Extending a listing by one id adds that id to its set.
pub proof fn lemma_take_to_set(ids: Seq<Seq<char>>, k: int)
    requires
        0 <= k < ids.len(),
    ensures
        ids.take(k + 1).to_set() == ids.take(k).to_set().insert(ids[k]),
{
    let shorter = ids.take(k);
    let longer = ids.take(k + 1);
    assert(longer =~= shorter.push(ids[k]));
    assert forall|x: Seq<char>| longer.to_set().contains(x) implies shorter.to_set().insert(ids[k]).contains(x) by {
        let i = choose|i: int| 0 <= i < longer.len() && longer[i] == x;
        if i < k {
            assert(shorter[i] == x);
        }
    }
    assert forall|x: Seq<char>| shorter.to_set().insert(ids[k]).contains(x) implies longer.to_set().contains(x) by {
        if x == ids[k] {
            assert(longer[k] == x);
        } else {
            let i = choose|i: int| 0 <= i < shorter.len() && shorter[i] == x;
            assert(longer[i] == x);
        }
    }
    assert(longer.to_set() =~= shorter.to_set().insert(ids[k]));
}

/// A set has only one strictly increasing listing.
pub proof fn lemma_sorted_set_unique(a: Seq<Seq<char>>, b: Seq<Seq<char>>)
    requires
        strictly_sorted(a),
        strictly_sorted(b),
        a.to_set() == b.to_set(),
    ensures
        a == b,
    decreases a.len(),
{
    if a.len() == 0 {
        if b.len() > 0 {
            assert(b.to_set().contains(b[0]));
        }
        assert(b =~= a);
    } else {
        assert(a.to_set().contains(a[0]));
        assert(b.len() > 0);
        assert(b.to_set().contains(b[0]));
        assert(b.contains(a[0]));
        assert(a.contains(b[0]));
        let k = choose|k: int| 0 <= k < b.len() && b[k] == a[0];
        let m = choose|m: int| 0 <= m < a.len() && a[m] == b[0];
        if k > 0 && m > 0 {
            assert(text_lt(b[0], b[k]));
            assert(text_lt(a[0], a[m]));
            lemma_text_lt_total(a[0], b[0]);
        } else if k > 0 {
            assert(text_lt(b[0], b[k]));
            lemma_text_lt_total(b[0], b[0]);
        } else if m > 0 {
            assert(text_lt(a[0], a[m]));
            lemma_text_lt_total(a[0], a[0]);
        }
        assert(a[0] == b[0]);
        let ra = a.drop_first();
        let rb = b.drop_first();
        assert(strictly_sorted(ra)) by {
            assert forall|x: int, y: int| 0 <= x < y < ra.len() implies text_lt(
                #[trigger] ra[x],
                #[trigger] ra[y],
            ) by {
                assert(ra[x] == a[x + 1] && ra[y] == a[y + 1]);
            }
        }
        assert(strictly_sorted(rb)) by {
            assert forall|x: int, y: int| 0 <= x < y < rb.len() implies text_lt(
                #[trigger] rb[x],
                #[trigger] rb[y],
            ) by {
                assert(rb[x] == b[x + 1] && rb[y] == b[y + 1]);
            }
        }
        assert(ra.to_set() =~= rb.to_set()) by {
            assert forall|x: Seq<char>| ra.to_set().contains(x) implies rb.to_set().contains(x) by {
                let i = choose|i: int| 0 <= i < ra.len() && ra[i] == x;
                assert(a[i + 1] == x);
                assert(a.to_set().contains(x));
                let j = choose|j: int| 0 <= j < b.len() && b[j] == x;
                if j == 0 {
                    assert(text_lt(a[0], a[i + 1]));
                    lemma_text_lt_total(a[0], a[0]);
                }
                assert(rb[j - 1] == x);
            }
            assert forall|x: Seq<char>| rb.to_set().contains(x) implies ra.to_set().contains(x) by {
                let i = choose|i: int| 0 <= i < rb.len() && rb[i] == x;
                assert(b[i + 1] == x);
                assert(b.to_set().contains(x));
                let j = choose|j: int| 0 <= j < a.len() && a[j] == x;
                if j == 0 {
                    assert(text_lt(b[0], b[i + 1]));
                    lemma_text_lt_total(b[0], b[0]);
                }
                assert(ra[j - 1] == x);
            }
        }
        lemma_sorted_set_unique(ra, rb);
        assert(a =~= seq![a[0]] + ra);
        assert(b =~= seq![b[0]] + rb);
    }
}

/// The canonical listing of the ids stored in a sorted vector is that vector.
pub proof fn lemma_sorted_of(ids: Seq<Seq<char>>)
    requires
        strictly_sorted(ids),
    ensures
        sorted_of(ids.to_set()) == ids,
{
    let c = sorted_of(ids.to_set());
    assert(strictly_sorted(c) && c.to_set() == ids.to_set());
    lemma_sorted_set_unique(c, ids);
}

proof fn lemma_to_seq_no_duplicates(set: Set<Seq<char>>)
    requires
        set.finite(),
    ensures
        set.to_seq().no_duplicates(),
        set.to_seq().to_set() == set,
    decreases set.len(),
{
    set.lemma_to_seq_to_set_id();
    if set.len() > 0 {
        let x = set.choose();
        let rest = set.remove(x);
        lemma_to_seq_no_duplicates(rest);
        let tail = rest.to_seq();
        let whole = set.to_seq();
        assert(whole == seq![x] + tail);
        assert(!tail.contains(x)) by {
            if tail.contains(x) {
                assert(tail.to_set().contains(x));
            }
        }
        assert forall|i: int, j: int| 0 <= i < whole.len() && 0 <= j < whole.len() && i != j implies whole[i]
            != whole[j] by {
            if i == 0 {
                assert(whole[j] == tail[j - 1]);
            } else if j == 0 {
                assert(whole[i] == tail[i - 1]);
            } else {
                assert(whole[i] == tail[i - 1] && whole[j] == tail[j - 1]);
            }
        }
    }
}

/// Every finite set of ids has its canonical order: `sorted_of` lists it
/// strictly increasing.
pub proof fn lemma_sorted_of_finite(set: Set<Seq<char>>)
    requires
        set.finite(),
    ensures
        strictly_sorted(sorted_of(set)),
        sorted_of(set).to_set() == set,
{
    broadcast use vstd::seq_lib::group_to_multiset_ensures;

    lemma_to_seq_no_duplicates(set);
    let listed = set.to_seq();
    lemma_text_le_total_ordering();
    listed.lemma_sort_by_ensures(text_le());
    let sorted = listed.sort_by(text_le());
    listed.lemma_multiset_has_no_duplicates();
    assert(sorted.to_multiset() == listed.to_multiset());
    sorted.lemma_multiset_has_no_duplicates_conv();
    assert(strictly_sorted(sorted)) by {
        assert forall|a: int, b: int| 0 <= a < b < sorted.len() implies text_lt(
            #[trigger] sorted[a],
            #[trigger] sorted[b],
        ) by {
            assert(text_le()(sorted[a], sorted[b]));
            lemma_text_lt_total(sorted[a], sorted[b]);
        }
    }
    assert(sorted.to_set() == set) by {
        assert forall|x: Seq<char>| sorted.to_set().contains(x) == set.contains(x) by {
            if sorted.contains(x) {
                vstd::seq_lib::to_multiset_contains(sorted, x);
                vstd::seq_lib::to_multiset_contains(listed, x);
                assert(listed.to_set().contains(x));
            }
            if set.contains(x) {
                assert(listed.to_set().contains(x));
                assert(listed.contains(x));
                vstd::seq_lib::to_multiset_contains(listed, x);
                vstd::seq_lib::to_multiset_contains(sorted, x);
            }
        }
    }
}

/// Whether `id` belongs to the stored set.
pub fn id_set_contains(ids: &Vec<String>, id: &String) -> (found: bool)
    ensures
        found == id_set(*ids).contains(id@),
{
    let ghost views = text_views(ids@);
    let mut i: usize = 0;
    while i < ids.len()
        invariant
            i <= ids.len(),
            views == text_views(ids@),
            views.len() == ids.len(),
            forall|k: int| 0 <= k < i ==> #[trigger] views[k] != id@,
        decreases ids.len() - i,
    {
        if ids[i] == *id {
            assert(views[i as int] == id@);
            return true;
        }
        i += 1;
    }
    false
}

/// Adds `id` to the stored set, keeping it sorted.
pub fn id_set_insert(ids: &mut Vec<String>, id: &String)
    requires
        stored_sorted(*old(ids)),
    ensures
        stored_sorted(*final(ids)),
        id_set(*final(ids)) == id_set(*old(ids)).insert(id@),
{
    let ghost before = text_views(ids@);
    let mut p: usize = 0;
    while p < ids.len() && text_less(&ids[p], id)
        invariant
            p <= ids.len(),
            before == text_views(ids@),
            before.len() == ids.len(),
            forall|k: int| 0 <= k < p ==> text_lt(#[trigger] before[k], id@),
        decreases ids.len() - p,
    {
        p += 1;
    }
    if p < ids.len() && ids[p] == *id {
        assert(before[p as int] == id@);
        assert(before.to_set().insert(id@) =~= before.to_set());
        return;
    }
    ids.insert(p, id.clone());
    proof {
        let after = text_views(ids@);
        assert(after =~= before.insert(p as int, id@));
        if p < before.len() {
            lemma_text_lt_total(before[p as int], id@);
            assert(text_lt(id@, before[p as int]));
        }
        assert forall|a: int, b: int| 0 <= a < b < after.len() implies text_lt(
            #[trigger] after[a],
            #[trigger] after[b],
        ) by {
            if b < p {
            } else if b == p {
            } else if a < p {
                assert(after[b] == before[b - 1]);
                if b - 1 > p {
                    assert(text_lt(before[p as int], before[b - 1]));
                    lemma_text_lt_transitive(id@, before[p as int], before[b - 1]);
                }
                lemma_text_lt_transitive(before[a], id@, before[b - 1]);
            } else if a == p {
                assert(after[b] == before[b - 1]);
                if b - 1 > p {
                    assert(text_lt(before[p as int], before[b - 1]));
                    lemma_text_lt_transitive(id@, before[p as int], before[b - 1]);
                }
            } else {
                assert(after[a] == before[a - 1]);
                assert(after[b] == before[b - 1]);
            }
        }
        assert(after.to_set() =~= before.to_set().insert(id@)) by {
            assert forall|x: Seq<char>| after.to_set().contains(x) implies before.to_set().insert(
                id@,
            ).contains(x) by {
                let i = choose|i: int| 0 <= i < after.len() && after[i] == x;
                if i < p {
                    assert(before[i] == x);
                } else if i > p {
                    assert(before[i - 1] == x);
                }
            }
            assert forall|x: Seq<char>| before.to_set().insert(id@).contains(x) implies after.to_set().contains(
                x,
            ) by {
                if x == id@ {
                    assert(after[p as int] == x);
                } else {
                    let i = choose|i: int| 0 <= i < before.len() && before[i] == x;
                    if i < p {
                        assert(after[i] == x);
                    } else {
                        assert(after[i + 1] == x);
                    }
                }
            }
        }
    }
}

/// Removes `id` from the stored set, keeping it sorted.
pub fn id_set_remove(ids: &mut Vec<String>, id: &String)
    requires
        stored_sorted(*old(ids)),
    ensures
        stored_sorted(*final(ids)),
        id_set(*final(ids)) == id_set(*old(ids)).remove(id@),
{
    let ghost before = text_views(ids@);
    let mut k: usize = 0;
    while k < ids.len()
        invariant
            k <= ids.len(),
            before == text_views(ids@),
            before == text_views(old(ids)@),
            before.len() == ids.len(),
            strictly_sorted(before),
            forall|j: int| 0 <= j < k ==> #[trigger] before[j] != id@,
        decreases ids.len() - k,
    {
        if ids[k] == *id {
            ids.remove(k);
            proof {
                let after = text_views(ids@);
                assert(after =~= before.remove(k as int));
                assert forall|a: int, b: int| 0 <= a < b < after.len() implies text_lt(
                    #[trigger] after[a],
                    #[trigger] after[b],
                ) by {
                    let ia = if a < k { a } else { a + 1 };
                    let ib = if b < k { b } else { b + 1 };
                    assert(after[a] == before[ia] && after[b] == before[ib]);
                }
                assert(after.to_set() =~= before.to_set().remove(id@)) by {
                    assert forall|x: Seq<char>| after.to_set().contains(x) implies before.to_set().remove(
                        id@,
                    ).contains(x) by {
                        let i = choose|i: int| 0 <= i < after.len() && after[i] == x;
                        let j = if i < k { i } else { i + 1 };
                        assert(before[j] == x);
                        if x == id@ {
                            if j < k {
                                assert(text_lt(before[j], before[k as int]));
                            } else {
                                assert(text_lt(before[k as int], before[j]));
                            }
                            lemma_text_lt_total(x, x);
                        }
                    }
                    assert forall|x: Seq<char>| before.to_set().remove(id@).contains(x) implies after.to_set().contains(
                        x,
                    ) by {
                        let i = choose|i: int| 0 <= i < before.len() && before[i] == x;
                        if i < k {
                            assert(after[i] == x);
                        } else {
                            assert(i != k);
                            assert(after[i - 1] == x);
                        }
                    }
                }
            }
            return;
        }
        k += 1;
    }
    assert(before.to_set().remove(id@) =~= before.to_set());
}

} // verus!
