use crate::csaf::getter_traits::{CsafTrait, RemediationTrait, VulnerabilityTrait};
use crate::csaf::helpers::named_products;
use crate::csaf::id_set::{lemma_union_over_finite, lemma_union_over_step, union_over, IdSet};
use crate::csaf::model::{
    views, BranchModel, DocumentModel, ProductGroupModel, ProductTreeModel, RelationshipModel,
    RemediationModel, VulnerabilityModel,
};
use crate::csaf::schema::{Branch, ProductGroup, ProductTree, Relationship};
use crate::csaf::text::texts;
use vstd::prelude::*;

verus! {

/// The product IDs that a branch and the branches below it define, the branch first and
/// then its children in their order.
pub open spec fn branch_definitions(b: BranchModel) -> Seq<Seq<char>>
    decreases b,
{
    let own = match b.product {
        Some(p) => seq![p],
        None => Seq::empty(),
    };
    own + forest_definitions(b.branches)
}

/// The product IDs that a sequence of branches defines, in the order of the branches.
pub open spec fn forest_definitions(bs: Seq<BranchModel>) -> Seq<Seq<char>>
    decreases bs,
{
    if bs.len() == 0 {
        Seq::empty()
    } else {
        forest_definitions(bs.drop_last()) + branch_definitions(bs.last())
    }
}

/// The product IDs that the relationships define, in their order.
pub open spec fn relationship_definitions(rels: Seq<RelationshipModel>) -> Seq<Seq<char>> {
    Seq::new(rels.len(), |i: int| rels[i].full_product_name)
}

/// The product IDs that a document defines, one for each definition site: first those of
/// the branches, then those of the relationships, then the full product names of the tree.
pub open spec fn definitions(doc: DocumentModel) -> Seq<Seq<char>> {
    match doc.product_tree {
        Some(tree) => forest_definitions(tree.branches) + relationship_definitions(
            tree.relationships,
        ) + tree.full_product_names,
        None => Seq::empty(),
    }
}

/// The number of branches on the longest path down from a branch, the branch itself counted.
pub open spec fn branch_depth(b: BranchModel) -> nat
    decreases b,
{
    1 + forest_depth(b.branches)
}

/// The number of branches on the longest path down through a sequence of branches.
pub open spec fn forest_depth(bs: Seq<BranchModel>) -> nat
    decreases bs,
{
    if bs.len() == 0 {
        0
    } else {
        let before = forest_depth(bs.drop_last());
        let last = branch_depth(bs.last());
        if last > before {
            last
        } else {
            before
        }
    }
}

/// A sequence of branches is no deeper than `max` exactly where each of them is.
pub proof fn lemma_forest_depth(bs: Seq<BranchModel>, max: nat)
    ensures
        forest_depth(bs) <= max <==> forall|i: int|
            0 <= i < bs.len() ==> branch_depth(#[trigger] bs[i]) <= max,
    decreases bs.len(),
{
    if bs.len() > 0 {
        let front = bs.drop_last();
        lemma_forest_depth(front, max);
        if forest_depth(bs) <= max {
            assert forall|i: int| 0 <= i < bs.len() implies branch_depth(#[trigger] bs[i])
                <= max by {
                if i < bs.len() - 1 {
                    assert(front[i] == bs[i]);
                }
            }
        } else {
            if branch_depth(bs.last()) > max {
                assert(bs[bs.len() - 1] == bs.last());
            } else {
                let i = choose|i: int|
                    0 <= i < front.len() && !(branch_depth(#[trigger] front[i]) <= max);
                assert(bs[i] == front[i]);
            }
        }
    }
}

fn branches_within(branches: &Vec<Branch>, remaining: usize) -> (r: bool)
    ensures
        r == (forest_depth(views(branches@)) <= remaining),
    decreases remaining,
{
    let ghost models = views(branches@);
    proof {
        lemma_forest_depth(models, remaining as nat);
    }
    if branches.len() == 0 {
        return true;
    }
    if remaining == 0 {
        assert(branch_depth(models[0]) > 0);
        return false;
    }
    let mut i: usize = 0;
    while i < branches.len()
        invariant
            0 <= i <= branches.len(),
            remaining > 0,
            models == views(branches@),
            forall|j: int| 0 <= j < i ==> branch_depth(#[trigger] models[j]) <= remaining,
        decreases branches.len() - i,
    {
        let below = branches_within(branches[i].get_branches(), remaining - 1);
        proof {
            branches[i as int].lemma_view_branches();
            assert(models[i as int] == branches[i as int]@);
        }
        if !below {
            assert(branch_depth(models[i as int]) > remaining);
            proof {
                lemma_forest_depth(models, remaining as nat);
            }
            return false;
        }
        i += 1;
    }
    proof {
        lemma_forest_depth(models, remaining as nat);
    }
    true
}

/// Whether no path down the branches of the tree holds more than `max` branches. The walk
/// goes depth first and ends at the first path that is too long.
pub fn check_branch_depth_tree(tree: &ProductTree, max: usize) -> (r: bool)
    ensures
        r == (forest_depth(tree@.branches) <= max),
{
    branches_within(tree.get_branches(), max)
}

fn gather_from_branches(branches: &Vec<Branch>, out: &mut Vec<String>)
    ensures
        texts(final(out)@) == texts(old(out)@) + forest_definitions(views(branches@)),
    decreases branches,
{
    let ghost models = views(branches@);
    let ghost start = texts(out@);
    let mut i: usize = 0;
    assert(models.take(0) =~= Seq::<BranchModel>::empty());
    assert(texts(out@) =~= start + forest_definitions(models.take(0)));
    while i < branches.len()
        invariant
            0 <= i <= branches.len(),
            models == views(branches@),
            texts(out@) == start + forest_definitions(models.take(i as int)),
        decreases branches.len() - i,
    {
        let branch = &branches[i];
        let ghost before = texts(out@);
        proof {
            branch.lemma_view_branches();
            assert(models.take(i + 1).drop_last() =~= models.take(i as int));
            assert(models.take(i + 1).last() == branch@);
        }
        let ghost own = match branch@.product {
            Some(p) => seq![p],
            None => Seq::empty(),
        };
        if let Some(product) = branch.get_product() {
            out.push(product.get_product_id().clone());
        }
        assert(texts(out@) =~= before + own);
        gather_from_branches(branch.get_branches(), out);
        proof {
            let below = forest_definitions(views(branch.branches@));
            assert(texts(out@) == (before + own) + below);
            assert(branch_definitions(branch@) == own + below);
            assert(forest_definitions(models.take(i + 1)) == forest_definitions(
                models.take(i as int),
            ) + branch_definitions(branch@));
            assert((before + own) + below =~= start + (forest_definitions(models.take(i as int))
                + (own + below)));
        }
        i += 1;
    }
    assert(models.take(branches.len() as int) =~= models);
}

/// Returns the product ID of every definition site of the document, in document order. An ID
/// that is defined more than once occurs more than once.
pub fn gather_product_definitions<D: CsafTrait>(doc: &D) -> (r: Vec<String>)
    ensures
        texts(r@) == definitions(doc@),
{
    let mut ids: Vec<String> = Vec::new();
    if let Some(tree) = doc.get_product_tree() {
        assert(texts(ids@) =~= Seq::<Seq<char>>::empty());
        gather_from_branches(tree.get_branches(), &mut ids);
        let ghost from_branches = texts(ids@);
        assert(from_branches =~= forest_definitions(tree@.branches));
        let relationships = tree.get_relationships();
        let mut i: usize = 0;
        while i < relationships.len()
            invariant
                0 <= i <= relationships.len(),
                *relationships == tree.relationships,
                texts(ids@) == from_branches + relationship_definitions(tree@.relationships).take(
                    i as int,
                ),
            decreases relationships.len() - i,
        {
            let ghost before = texts(ids@);
            ids.push(relationships[i].get_full_product_name().get_product_id().clone());
            proof {
                let all = relationship_definitions(tree@.relationships);
                assert(tree@.relationships[i as int] == relationships[i as int]@);
                assert(all.take(i + 1) =~= all.take(i as int).push(all[i as int]));
                assert(texts(ids@) =~= before.push(all[i as int]));
                assert(texts(ids@) =~= from_branches + all.take(i + 1));
            }
            i += 1;
        }
        let ghost from_relationships = texts(ids@);
        assert(from_relationships =~= from_branches + relationship_definitions(
            tree@.relationships,
        ));
        let names = tree.get_full_product_names();
        let mut k: usize = 0;
        while k < names.len()
            invariant
                0 <= k <= names.len(),
                *names == tree.full_product_names,
                texts(ids@) == from_relationships + tree@.full_product_names.take(k as int),
            decreases names.len() - k,
        {
            let ghost before = texts(ids@);
            ids.push(names[k].get_product_id().clone());
            proof {
                let all = tree@.full_product_names;
                assert(all[k as int] == names[k as int]@);
                assert(all.take(k + 1) =~= all.take(k as int).push(all[k as int]));
                assert(texts(ids@) =~= before.push(all[k as int]));
                assert(texts(ids@) =~= from_relationships + all.take(k + 1));
            }
            k += 1;
        }
        assert(texts(ids@) =~= definitions(doc@));
    } else {
        assert(texts(ids@) =~= definitions(doc@));
    }
    ids
}

/// What a remediation names.
pub open spec fn named() -> spec_fn(RemediationModel) -> Set<Seq<char>> {
    |rem: RemediationModel| named_products(rem)
}

/// What the remediations of a vulnerability name.
pub open spec fn named_in_vulnerability() -> spec_fn(VulnerabilityModel) -> Set<Seq<char>> {
    |v: VulnerabilityModel| union_over(v.remediations, named())
}

/// The members of a product group.
pub open spec fn members() -> spec_fn(ProductGroupModel) -> Set<Seq<char>> {
    |g: ProductGroupModel| g.product_ids.to_set()
}

/// The two products that a relationship refers to.
pub open spec fn ends() -> spec_fn(RelationshipModel) -> Set<Seq<char>> {
    |rel: RelationshipModel|
        Set::<Seq<char>>::empty().insert(rel.product_reference).insert(
            rel.relates_to_product_reference,
        )
}

/// The product IDs that a product tree refers to: the members of its groups and the ends of
/// its relationships.
pub open spec fn tree_references(tree: Option<ProductTreeModel>) -> Set<Seq<char>> {
    match tree {
        Some(tree) => union_over(tree.product_groups, members()).union(
            union_over(tree.relationships, ends()),
        ),
        None => Set::empty(),
    }
}

/// The product IDs that a document refers to: in its remediations, in the membership of its
/// product groups, and at either end of its relationships.
pub open spec fn references(doc: DocumentModel) -> Set<Seq<char>> {
    union_over(doc.vulnerabilities, named_in_vulnerability()).union(
        tree_references(doc.product_tree),
    )
}

/// A document refers to finitely many product IDs.
pub proof fn lemma_references_finite(doc: DocumentModel)
    ensures
        references(doc).finite(),
{
    broadcast use {vstd::set::group_set_axioms, vstd::seq_lib::seq_to_set_is_finite};

    let vs = doc.vulnerabilities;
    assert forall|i: int| 0 <= i < vs.len() implies #[trigger] named_in_vulnerability()(
        vs[i],
    ).finite() by {
        let rems = vs[i].remediations;
        assert forall|k: int| 0 <= k < rems.len() implies #[trigger] named()(rems[k]).finite() by {}
        lemma_union_over_finite(rems, named());
    }
    lemma_union_over_finite(doc.vulnerabilities, named_in_vulnerability());
    if let Some(tree) = doc.product_tree {
        assert forall|i: int| 0 <= i < tree.product_groups.len() implies #[trigger] members()(
            tree.product_groups[i],
        ).finite() by {}
        lemma_union_over_finite(tree.product_groups, members());
        assert forall|i: int| 0 <= i < tree.relationships.len() implies #[trigger] ends()(
            tree.relationships[i],
        ).finite() by {}
        lemma_union_over_finite(tree.relationships, ends());
    }
}

fn add_named<V: VulnerabilityTrait>(found: IdSet, vulnerability: &V) -> (r: IdSet)
    ensures
        r@ == found@.union(named_in_vulnerability()(vulnerability@)),
{
    let remediations = vulnerability.get_remediations();
    let ghost start = found@;
    let ghost models = views(remediations@);
    let mut found = found;
    let mut i: usize = 0;
    proof {
        if remediations.len() > 0 {
            lemma_union_over_step(models, named(), 0);
        } else {
            assert(union_over(models, named()) =~= Set::<Seq<char>>::empty());
            assert(models.take(0) =~= models);
        }
        assert(found@ =~= start.union(union_over(models.take(0), named())));
    }
    while i < remediations.len()
        invariant
            0 <= i <= remediations.len(),
            models == views(remediations@),
            found@ == start.union(union_over(models.take(i as int), named())),
        decreases remediations.len() - i,
    {
        proof {
            lemma_union_over_step(models, named(), i as int);
        }
        if let Some(ids) = remediations[i].get_product_ids() {
            found = found.extend(ids);
        }
        assert(found@ =~= start.union(union_over(models.take(i + 1), named())));
        i += 1;
    }
    proof {
        assert(models.take(remediations.len() as int) =~= models);
    }
    found
}

fn add_members(found: IdSet, groups: &Vec<ProductGroup>) -> (r: IdSet)
    ensures
        r@ == found@.union(union_over(views(groups@), members())),
{
    let ghost start = found@;
    let ghost models = views(groups@);
    let mut found = found;
    let mut i: usize = 0;
    proof {
        if groups.len() > 0 {
            lemma_union_over_step(models, members(), 0);
        } else {
            assert(union_over(models, members()) =~= Set::<Seq<char>>::empty());
            assert(models.take(0) =~= models);
        }
        assert(found@ =~= start.union(union_over(models.take(0), members())));
    }
    while i < groups.len()
        invariant
            0 <= i <= groups.len(),
            models == views(groups@),
            found@ == start.union(union_over(models.take(i as int), members())),
        decreases groups.len() - i,
    {
        proof {
            lemma_union_over_step(models, members(), i as int);
        }
        found = found.extend(groups[i].get_product_ids());
        assert(found@ =~= start.union(union_over(models.take(i + 1), members())));
        i += 1;
    }
    proof {
        assert(models.take(groups.len() as int) =~= models);
    }
    found
}

fn add_ends(found: IdSet, relationships: &Vec<Relationship>) -> (r: IdSet)
    ensures
        r@ == found@.union(union_over(views(relationships@), ends())),
{
    let ghost start = found@;
    let ghost models = views(relationships@);
    let mut found = found;
    let mut i: usize = 0;
    proof {
        if relationships.len() > 0 {
            lemma_union_over_step(models, ends(), 0);
        } else {
            assert(union_over(models, ends()) =~= Set::<Seq<char>>::empty());
            assert(models.take(0) =~= models);
        }
        assert(found@ =~= start.union(union_over(models.take(0), ends())));
    }
    while i < relationships.len()
        invariant
            0 <= i <= relationships.len(),
            models == views(relationships@),
            found@ == start.union(union_over(models.take(i as int), ends())),
        decreases relationships.len() - i,
    {
        proof {
            lemma_union_over_step(models, ends(), i as int);
        }
        found = found.insert(relationships[i].get_product_reference().clone());
        found = found.insert(relationships[i].get_relates_to_product_reference().clone());
        assert(found@ =~= start.union(union_over(models.take(i + 1), ends())));
        i += 1;
    }
    proof {
        assert(models.take(relationships.len() as int) =~= models);
    }
    found
}

/// Returns the set of the product IDs that the document refers to.
pub fn gather_product_references<D: CsafTrait>(doc: &D) -> (r: IdSet)
    ensures
        r@ == references(doc@),
{
    let vulnerabilities = doc.get_vulnerabilities();
    let ghost models = doc@.vulnerabilities;
    let mut found = IdSet::new();
    let mut i: usize = 0;
    proof {
        if vulnerabilities.len() > 0 {
            lemma_union_over_step(models, named_in_vulnerability(), 0);
        } else {
            assert(union_over(models, named_in_vulnerability()) =~= Set::<Seq<char>>::empty());
            assert(models.take(0) =~= models);
        }
    }
    while i < vulnerabilities.len()
        invariant
            0 <= i <= vulnerabilities.len(),
            models == views(vulnerabilities@),
            found@ == union_over(models.take(i as int), named_in_vulnerability()),
        decreases vulnerabilities.len() - i,
    {
        proof {
            lemma_union_over_step(models, named_in_vulnerability(), i as int);
        }
        found = add_named(found, &vulnerabilities[i]);
        i += 1;
    }
    proof {
        assert(models.take(vulnerabilities.len() as int) =~= models);
    }
    if let Some(tree) = doc.get_product_tree() {
        let ghost from_remediations = found@;
        found = add_members(found, tree.get_product_groups());
        found = add_ends(found, tree.get_relationships());
        assert(found@ =~= from_remediations.union(tree_references(doc@.product_tree)));
    } else {
        assert(found@ =~= found@.union(tree_references(doc@.product_tree)));
    }
    found
}

} // verus!
