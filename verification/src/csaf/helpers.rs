use crate::csaf::getter_traits::{CsafTrait, RemediationTrait};
use crate::csaf::id_set::{lemma_union_over_finite, lemma_union_over_step, union_over, IdSet};
use crate::csaf::model::{option_view, views, ProductGroupModel, ProductTreeModel, RemediationModel};
use crate::csaf::text::{contains_id, texts};
use vstd::prelude::*;

verus! {

/// The values that occur more than once in `s`.
pub open spec fn duplicates(s: Seq<Seq<char>>) -> Set<Seq<char>> {
    Set::new(
        |x: Seq<char>|
            exists|i: int, j: int|
                0 <= i < j < s.len() && #[trigger] s[i] == x && #[trigger] s[j] == x,
    )
}

/// One more item adds itself to the duplicates where it occurred before, and nothing else.
pub proof fn lemma_duplicates_step(s: Seq<Seq<char>>, j: int)
    requires
        0 <= j < s.len(),
    ensures
        duplicates(s.take(j + 1)) == if s.take(j).contains(s[j]) {
            duplicates(s.take(j)).insert(s[j])
        } else {
            duplicates(s.take(j))
        },
        j + 1 == s.len() ==> s.take(j + 1) == s,
        duplicates(s.take(0)) == Set::<Seq<char>>::empty(),
{
    let more = s.take(j + 1);
    let less = s.take(j);
    let grown = if less.contains(s[j]) {
        duplicates(less).insert(s[j])
    } else {
        duplicates(less)
    };
    assert forall|x: Seq<char>| duplicates(more).contains(x) <==> grown.contains(x) by {
        if duplicates(more).contains(x) {
            let (a, b) = choose|a: int, b: int|
                0 <= a < b < more.len() && #[trigger] more[a] == x && #[trigger] more[b] == x;
            if b < j {
                assert(less[a] == x && less[b] == x);
            } else {
                assert(less[a] == x);
            }
        }
        if duplicates(less).contains(x) {
            let (a, b) = choose|a: int, b: int|
                0 <= a < b < less.len() && #[trigger] less[a] == x && #[trigger] less[b] == x;
            assert(more[a] == x && more[b] == x);
        }
        if less.contains(s[j]) && x == s[j] {
            let a = choose|a: int| 0 <= a < less.len() && less[a] == x;
            assert(more[a] == x && more[j] == x);
        }
    }
    assert(duplicates(more) =~= grown);
    if j + 1 == s.len() {
        assert(s.take(j + 1) =~= s);
    }
    assert(duplicates(s.take(0)) =~= Set::<Seq<char>>::empty());
}

/// Whether the item at `j` occurs at an earlier place too.
fn occurs_before(ids: &Vec<String>, j: usize) -> (r: bool)
    requires
        j < ids.len(),
    ensures
        r == texts(ids@).take(j as int).contains(texts(ids@)[j as int]),
{
    let ghost before = texts(ids@).take(j as int);
    let mut i: usize = 0;
    while i < j
        invariant
            0 <= i <= j < ids.len(),
            before == texts(ids@).take(j as int),
            forall|k: int| 0 <= k < i ==> before[k] != texts(ids@)[j as int],
        decreases j - i,
    {
        if ids[i] == ids[j] {
            assert(before[i as int] == texts(ids@)[j as int]);
            return true;
        }
        i += 1;
    }
    false
}

/// Returns the set of the values that occur more than once in `ids`.
pub fn find_duplicates(ids: &Vec<String>) -> (r: IdSet)
    ensures
        r@ == duplicates(texts(ids@)),
{
    let ghost all = texts(ids@);
    let mut found = IdSet::new();
    let mut j: usize = 0;
    proof {
        if ids.len() > 0 {
            lemma_duplicates_step(all, 0);
        } else {
            assert(duplicates(all) =~= Set::<Seq<char>>::empty());
            assert(all.take(0) =~= all);
        }
    }
    while j < ids.len()
        invariant
            0 <= j <= ids.len(),
            all == texts(ids@),
            found@ == duplicates(all.take(j as int)),
        decreases ids.len() - j,
    {
        proof {
            lemma_duplicates_step(all, j as int);
        }
        if occurs_before(ids, j) {
            found = found.insert(ids[j].clone());
        }
        j += 1;
    }
    proof {
        assert(all.take(ids.len() as int) =~= all);
    }
    found
}

/// What a product group gives to one who names the groups `group_ids`: its products where it
/// is among them, and nothing where it is not.
pub open spec fn selected_products(group_ids: Seq<Seq<char>>) -> spec_fn(ProductGroupModel) -> Set<
    Seq<char>,
> {
    |g: ProductGroupModel|
        if group_ids.contains(g.group_id) {
            g.product_ids.to_set()
        } else {
            Set::empty()
        }
}

/// The products of the groups that `group_ids` names. An ID that names no group adds nothing.
pub open spec fn group_members(groups: Seq<ProductGroupModel>, group_ids: Seq<Seq<char>>) -> Set<
    Seq<char>,
> {
    union_over(groups, selected_products(group_ids))
}

/// The products of the named groups of a product tree, and `None` without a tree.
pub open spec fn resolved_groups(
    tree: Option<ProductTreeModel>,
    group_ids: Seq<Seq<char>>,
) -> Option<Set<Seq<char>>> {
    match tree {
        Some(tree) => Some(group_members(tree.product_groups, group_ids)),
        None => None,
    }
}

/// Resolves group IDs to the products of the groups. Returns `None` where the document has no
/// product tree; an ID that names no group of the tree is passed over.
pub fn resolve_product_groups<D: CsafTrait>(doc: &D, product_groups: &Vec<String>) -> (r: Option<
    IdSet,
>)
    ensures
        option_view(r) == resolved_groups(doc@.product_tree, texts(product_groups@)),
{
    match doc.get_product_tree() {
        Some(tree) => {
            let groups = tree.get_product_groups();
            let ghost models = views(groups@);
            let ghost of = selected_products(texts(product_groups@));
            let mut members = IdSet::new();
            let mut g: usize = 0;
            proof {
                if groups.len() > 0 {
                    lemma_union_over_step(models, of, 0);
                } else {
                    assert(union_over(models, of) =~= Set::<Seq<char>>::empty());
                    assert(models.take(0) =~= models);
                }
            }
            while g < groups.len()
                invariant
                    0 <= g <= groups.len(),
                    models == views(groups@),
                    of == selected_products(texts(product_groups@)),
                    members@ == union_over(models.take(g as int), of),
                decreases groups.len() - g,
            {
                proof {
                    lemma_union_over_step(models, of, g as int);
                }
                if contains_id(product_groups, groups[g].get_group_id()) {
                    members = members.extend(groups[g].get_product_ids());
                } else {
                    assert(members@ =~= members@.union(Set::<Seq<char>>::empty()));
                }
                g += 1;
            }
            proof {
                assert(models.take(groups.len() as int) =~= models);
            }
            Some(members)
        },
        None => None,
    }
}

/// The products that a remediation names itself.
pub open spec fn named_products(rem: RemediationModel) -> Set<Seq<char>> {
    match rem.product_ids {
        Some(ids) => ids.to_set(),
        None => Set::empty(),
    }
}

/// The products that a remediation affects: those it names and those of the groups it names.
/// `None` where it names neither products nor groups.
pub open spec fn affected_products(rem: RemediationModel, tree: Option<ProductTreeModel>) -> Option<
    Set<Seq<char>>,
> {
    if rem.product_ids is None && rem.group_ids is None {
        None
    } else {
        let grouped = match (rem.group_ids, tree) {
            (Some(group_ids), Some(tree)) => group_members(tree.product_groups, group_ids),
            _ => Set::empty(),
        };
        Some(named_products(rem).union(grouped))
    }
}

/// A remediation affects finitely many products.
pub proof fn lemma_affected_products_finite(rem: RemediationModel, tree: Option<ProductTreeModel>)
    ensures
        affected_products(rem, tree) matches Some(products) ==> products.finite(),
{
    broadcast use {vstd::set::group_set_axioms, vstd::seq_lib::seq_to_set_is_finite};

    if let (Some(group_ids), Some(tree)) = (rem.group_ids, tree) {
        let of = selected_products(group_ids);
        assert forall|i: int| 0 <= i < tree.product_groups.len() implies #[trigger] of(
            tree.product_groups[i],
        ).finite() by {}
        lemma_union_over_finite(tree.product_groups, of);
    }
}

/// The products that a remediation affects, directly or through a group, or `None` where it
/// has neither product IDs nor group IDs.
pub fn get_all_product_ids<R: RemediationTrait, D: CsafTrait>(remediation: &R, doc: &D) -> (r:
    Option<IdSet>)
    ensures
        option_view(r) == affected_products(remediation@, doc@.product_tree),
{
    let product_ids = remediation.get_product_ids();
    let group_ids = remediation.get_group_ids();
    if product_ids.is_none() && group_ids.is_none() {
        return None;
    }
    let mut product_set = IdSet::new();
    if let Some(ids) = product_ids {
        product_set = product_set.extend(ids);
    }
    assert(product_set@ =~= named_products(remediation@));
    if let Some(groups) = group_ids {
        if let Some(resolved) = resolve_product_groups(doc, groups) {
            product_set = product_set.extend(resolved.items());
            return Some(product_set);
        }
    }
    assert(product_set@ =~= product_set@.union(Set::<Seq<char>>::empty()));
    Some(product_set)
}

} // verus!
