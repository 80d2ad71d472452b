use crate::csaf::text::{
    contains_id, lemma_lex_lt_total, lemma_lex_lt_transitive, lemma_sorted_ids, lex_lt, sorted_ids,
    strictly_sorted, string_lt, texts,
};
use vstd::prelude::*;

verus! {

/// The union of the sets that `of` gives for the items.
pub open spec fn union_over<T>(items: Seq<T>, of: spec_fn(T) -> Set<Seq<char>>) -> Set<Seq<char>> {
    Set::new(
        |p: Seq<char>|
            exists|i: int| 0 <= i < items.len() && #[trigger] of(items[i]).contains(p),
    )
}

/// The union over one more item is the union so far with what the item gives.
pub proof fn lemma_union_over_step<T>(items: Seq<T>, of: spec_fn(T) -> Set<Seq<char>>, i: int)
    requires
        0 <= i < items.len(),
    ensures
        union_over(items.take(i + 1), of) == union_over(items.take(i), of).union(of(items[i])),
        i + 1 == items.len() ==> items.take(i + 1) == items,
        union_over(items.take(0), of) == Set::<Seq<char>>::empty(),
{
    let more = items.take(i + 1);
    let less = items.take(i);
    assert forall|p: Seq<char>|
        union_over(more, of).contains(p) <==> union_over(less, of).union(of(items[i])).contains(
            p,
        ) by {
        if union_over(more, of).contains(p) {
            let k = choose|k: int| 0 <= k < more.len() && #[trigger] of(more[k]).contains(p);
            if k < i {
                assert(of(less[k]).contains(p));
            }
        }
        if union_over(less, of).contains(p) {
            let k = choose|k: int| 0 <= k < less.len() && #[trigger] of(less[k]).contains(p);
            assert(of(more[k]).contains(p));
        }
        if of(items[i]).contains(p) {
            assert(of(more[i]).contains(p));
        }
    }
    assert(union_over(more, of) =~= union_over(less, of).union(of(items[i])));
    if i + 1 == items.len() {
        assert(items.take(i + 1) =~= items);
    }
    assert(union_over(items.take(0), of) =~= Set::<Seq<char>>::empty());
}

/// A union of finite sets over a sequence is finite.
pub proof fn lemma_union_over_finite<T>(items: Seq<T>, of: spec_fn(T) -> Set<Seq<char>>)
    requires
        forall|i: int| 0 <= i < items.len() ==> #[trigger] of(items[i]).finite(),
    ensures
        union_over(items, of).finite(),
    decreases items.len(),
{
    broadcast use vstd::set::group_set_axioms;

    if items.len() == 0 {
        assert(union_over(items, of) =~= Set::<Seq<char>>::empty());
    } else {
        let i = items.len() - 1;
        let front = items.take(i);
        lemma_union_over_step(items, of, i);
        assert forall|k: int| 0 <= k < front.len() implies #[trigger] of(front[k]).finite() by {
            assert(front[k] == items[k]);
        }
        lemma_union_over_finite(front, of);
    }
}

/// A sequence with one more item has the set of the sequence so far and that item.
pub proof fn lemma_take_to_set(ids: Seq<Seq<char>>, i: int)
    requires
        0 <= i < ids.len(),
    ensures
        ids.take(i + 1).to_set() == ids.take(i).to_set().insert(ids[i]),
        i + 1 == ids.len() ==> ids.take(i + 1) == ids,
        ids.take(0).to_set() == Set::<Seq<char>>::empty(),
{
    let more = ids.take(i + 1);
    let less = ids.take(i);
    assert forall|p: Seq<char>| more.to_set().contains(p) <==> less.to_set().insert(
        ids[i],
    ).contains(p) by {
        if more.contains(p) {
            let k = choose|k: int| 0 <= k < more.len() && more[k] == p;
            if k < i {
                assert(less[k] == p);
            }
        }
        if less.contains(p) {
            let k = choose|k: int| 0 <= k < less.len() && less[k] == p;
            assert(more[k] == p);
        }
        if p == ids[i] {
            assert(more[i] == p);
        }
    }
    assert(more.to_set() =~= less.to_set().insert(ids[i]));
    if i + 1 == ids.len() {
        assert(ids.take(i + 1) =~= ids);
    }
    assert(ids.take(0).to_set() =~= Set::<Seq<char>>::empty());
}

/// A finite set of IDs, kept in strictly ascending lexicographic order.
#[derive(Debug, PartialEq, Eq)]
pub struct IdSet {
    items: Vec<String>,
}

impl View for IdSet {
    type V = Set<Seq<char>>;

    closed spec fn view(&self) -> Set<Seq<char>> {
        texts(self.items@).to_set()
    }
}

impl IdSet {
    #[verifier::type_invariant]
    spec fn well_formed(self) -> bool {
        strictly_sorted(texts(self.items@))
    }

    /// The empty set.
    pub fn new() -> (r: IdSet)
        ensures
            r@ == Set::<Seq<char>>::empty(),
    {
        let r = IdSet { items: Vec::new() };
        assert(r@ =~= Set::<Seq<char>>::empty());
        r
    }

    /// The set with `id` added.
    pub fn insert(self, id: String) -> (r: IdSet)
        ensures
            r@ == self@.insert(id@),
    {
        proof {
            use_type_invariant(&self);
        }
        let ghost before = texts(self.items@);
        let IdSet { items } = self;
        let mut items = items;
        let mut at: usize = 0;
        while at < items.len() && string_lt(&items[at], &id)
            invariant
                0 <= at <= items.len(),
                before == texts(items@),
                forall|k: int| 0 <= k < at ==> lex_lt(#[trigger] before[k], id@),
            decreases items.len() - at,
        {
            at += 1;
        }
        if at < items.len() && items[at] == id {
            assert(before[at as int] == id@);
            assert(before.to_set().insert(id@) =~= before.to_set());
            return IdSet { items };
        }
        proof {
            if at < before.len() {
                lemma_lex_lt_total(before[at as int], id@);
            }
        }
        items.insert(at, id);
        proof {
            let after = texts(items@);
            assert(after =~= before.insert(at as int, id@));
            assert forall|i: int, j: int| 0 <= i < j < after.len() implies lex_lt(
                #[trigger] after[i],
                #[trigger] after[j],
            ) by {
                if j < at {
                    assert(after[i] == before[i] && after[j] == before[j]);
                } else if j == at {
                    assert(after[i] == before[i]);
                } else if i < at {
                    assert(after[i] == before[i] && after[j] == before[j - 1]);
                    if i == j - 1 {
                    }
                } else if i == at {
                    assert(after[j] == before[j - 1]);
                    if j - 1 > at {
                        assert(lex_lt(before[at as int], before[j - 1]));
                        lemma_lex_lt_transitive(id@, before[at as int], before[j - 1]);
                    }
                } else {
                    assert(after[i] == before[i - 1] && after[j] == before[j - 1]);
                }
            }
            assert forall|v: Seq<char>| after.to_set().contains(v) <==> before.to_set().insert(
                id@,
            ).contains(v) by {
                if after.contains(v) {
                    let i = choose|i: int| 0 <= i < after.len() && after[i] == v;
                    if i < at {
                        assert(before[i] == v);
                    } else if i > at {
                        assert(before[i - 1] == v);
                    }
                }
                if before.contains(v) {
                    let i = choose|i: int| 0 <= i < before.len() && before[i] == v;
                    if i < at {
                        assert(after[i] == v);
                    } else {
                        assert(after[i + 1] == v);
                    }
                }
                if v == id@ {
                    assert(after[at as int] == v);
                }
            }
            assert(after.to_set() =~= before.to_set().insert(id@));
        }
        IdSet { items }
    }

    /// The set with every one of `ids` added.
    pub fn extend(self, ids: &Vec<String>) -> (r: IdSet)
        ensures
            r@ == self@.union(texts(ids@).to_set()),
    {
        let ghost before = self@;
        let ghost all = texts(ids@);
        let mut set = self;
        let mut i: usize = 0;
        proof {
            if ids.len() > 0 {
                lemma_take_to_set(all, 0);
            } else {
                assert(all.take(0) =~= all);
                assert(all.to_set() =~= Set::<Seq<char>>::empty());
            }
            assert(set@ =~= before.union(all.take(0).to_set()));
        }
        while i < ids.len()
            invariant
                0 <= i <= ids.len(),
                all == texts(ids@),
                set@ == before.union(all.take(i as int).to_set()),
            decreases ids.len() - i,
        {
            proof {
                lemma_take_to_set(all, i as int);
            }
            set = set.insert(ids[i].clone());
            assert(set@ =~= before.union(all.take(i + 1).to_set()));
            i += 1;
        }
        proof {
            assert(all.take(ids.len() as int) =~= all);
        }
        set
    }

    /// The set without the IDs that are among `excluded`.
    pub fn without(&self, excluded: &Vec<String>) -> (r: IdSet)
        ensures
            r@ == self@.difference(texts(excluded@).to_set()),
    {
        proof {
            use_type_invariant(self);
        }
        let ghost all = texts(self.items@);
        let ghost out = texts(excluded@).to_set();
        let mut kept: Vec<String> = Vec::new();
        let mut i: usize = 0;
        proof {
            if self.items.len() > 0 {
                lemma_take_to_set(all, 0);
            } else {
                assert(all.take(0) =~= all);
                assert(all.to_set() =~= Set::<Seq<char>>::empty());
            }
            assert(texts(kept@).to_set() =~= all.take(0).to_set().difference(out));
        }
        while i < self.items.len()
            invariant
                0 <= i <= self.items.len(),
                all == texts(self.items@),
                out == texts(excluded@).to_set(),
                strictly_sorted(all),
                strictly_sorted(texts(kept@)),
                texts(kept@).to_set() == all.take(i as int).to_set().difference(out),
                forall|m: int, j: int|
                    0 <= m < kept@.len() && i <= j < all.len() ==> lex_lt(
                        #[trigger] texts(kept@)[m],
                        #[trigger] all[j],
                    ),
            decreases self.items.len() - i,
        {
            proof {
                lemma_take_to_set(all, i as int);
            }
            let ghost before = texts(kept@);
            if !contains_id(excluded, &self.items[i]) {
                kept.push(self.items[i].clone());
                proof {
                    let after = texts(kept@);
                    assert(after =~= before.push(all[i as int]));
                    assert forall|a: int, b: int| 0 <= a < b < after.len() implies lex_lt(
                        #[trigger] after[a],
                        #[trigger] after[b],
                    ) by {
                        if b < before.len() {
                            assert(after[a] == before[a] && after[b] == before[b]);
                        } else {
                            assert(after[a] == before[a]);
                            assert(lex_lt(before[a], all[i as int]));
                        }
                    }
                    assert forall|m: int, j: int|
                        0 <= m < after.len() && i + 1 <= j < all.len() implies lex_lt(
                        #[trigger] after[m],
                        #[trigger] all[j],
                    ) by {
                        if m < before.len() {
                            assert(after[m] == before[m]);
                        } else {
                            assert(lex_lt(all[i as int], all[j]));
                        }
                    }
                    assert forall|v: Seq<char>| after.to_set().contains(v) <==> all.take(
                        i + 1,
                    ).to_set().difference(out).contains(v) by {
                        assert(all[i as int] == self.items@[i as int]@);
                        assert(!texts(excluded@).contains(all[i as int]));
                        assert(!out.contains(all[i as int]));
                        let so_far = all.take(i as int).to_set();
                        assert(before.to_set().contains(v) <==> so_far.contains(v)
                            && !out.contains(v));
                        if after.contains(v) {
                            let k = choose|k: int| 0 <= k < after.len() && after[k] == v;
                            if k < before.len() {
                                assert(before[k] == v);
                                assert(before.to_set().contains(v));
                            }
                        }
                        if before.to_set().contains(v) {
                            assert(before.contains(v));
                        }
                        if before.contains(v) {
                            let k = choose|k: int| 0 <= k < before.len() && before[k] == v;
                            assert(after[k] == v);
                        }
                        if v == all[i as int] {
                            assert(after[before.len() as int] == v);
                        }
                    }
                    assert(after.to_set() =~= all.take(i + 1).to_set().difference(out));
                }
            } else {
                assert(before.to_set() =~= all.take(i + 1).to_set().difference(out));
            }
            i += 1;
        }
        proof {
            assert(all.take(self.items.len() as int) =~= all);
        }
        IdSet { items: kept }
    }

    /// Whether `id` is in the set.
    pub fn contains(&self, id: &String) -> (r: bool)
        ensures
            r == self@.contains(id@),
    {
        let mut i: usize = 0;
        while i < self.items.len()
            invariant
                0 <= i <= self.items.len(),
                forall|j: int| 0 <= j < i ==> texts(self.items@)[j] != id@,
            decreases self.items.len() - i,
        {
            if self.items[i] == *id {
                assert(texts(self.items@)[i as int] == id@);
                return true;
            }
            i += 1;
        }
        false
    }

    /// The IDs of the set in ascending order.
    pub fn items(&self) -> (r: &Vec<String>)
        ensures
            texts(r@) == sorted_ids(self@),
            strictly_sorted(texts(r@)),
            texts(r@).to_set() == self@,
    {
        proof {
            use_type_invariant(self);
            lemma_sorted_ids(texts(self.items@));
        }
        &self.items
    }

    /// The number of IDs in the set.
    pub fn len(&self) -> (r: usize)
        ensures
            r == sorted_ids(self@).len(),
            r == 0 <==> self@ == Set::<Seq<char>>::empty(),
    {
        proof {
            use_type_invariant(self);
            lemma_sorted_ids(texts(self.items@));
            if self.items@.len() > 0 {
                assert(texts(self.items@)[0] == self.items@[0]@);
                assert(self@.contains(self.items@[0]@));
            } else {
                assert(self@ =~= Set::<Seq<char>>::empty());
            }
        }
        self.items.len()
    }

    /// Whether the set is empty.
    pub fn is_empty(&self) -> (r: bool)
        ensures
            r == (self@ == Set::<Seq<char>>::empty()),
    {
        proof {
            if self.items@.len() > 0 {
                assert(texts(self.items@)[0] == self.items@[0]@);
                assert(self@.contains(self.items@[0]@));
            } else {
                assert(self@ =~= Set::<Seq<char>>::empty());
            }
        }
        self.items.len() == 0
    }
}

} // verus!
