use crate::csaf::csaf2_1::schema::CategoryOfTheRemediation;
use crate::csaf::getter_traits::{CsafTrait, RemediationTrait, VulnerabilityTrait};
use crate::csaf::helpers::{
    affected_products, duplicates, find_duplicates, get_all_product_ids,
    lemma_affected_products_finite,
};
use crate::csaf::id_set::IdSet;
use crate::csaf::model::{
    first_some, lemma_first_some_at, lemma_first_some_none, option_view, views, DocumentModel,
    FindingModel, ProductTreeModel, RemediationModel, VulnerabilityModel,
};
use crate::csaf::product_helpers::{
    check_branch_depth_tree, definitions, forest_depth, gather_product_definitions,
    gather_product_references, lemma_references_finite, references,
};
use crate::csaf::text::{
    braced, bracketed, debug_list_string, debug_set_string, debug_texts, decimal, decimal_string,
    join, join_strings, lemma_sorted_ids_of_finite, same_text, sorted_ids, strictly_sorted, texts,
};
use crate::csaf::validations::test_6_1_03::{
    outcome_6_1_03, test_6_1_03_circular_definition_of_product_id,
};
use crate::csaf::validations::test_6_1_46::{outcome_6_1_46, test_6_1_46_invalid_ssvc};
use crate::csaf::validations::test_6_1_49::{
    outcome_6_1_49, test_6_1_49_inconsistent_ssvc_timestamp,
};
use vstd::prelude::*;

verus! {

/// A finding of a conformance test: what is wrong, and a JSON pointer to where.
#[derive(Debug, PartialEq, Eq)]
pub struct ValidationError {
    pub message: String,
    pub instance_path: String,
}

impl View for ValidationError {
    type V = FindingModel;

    open spec fn view(&self) -> FindingModel {
        FindingModel { message: self.message@, instance_path: self.instance_path@ }
    }
}

/// The finding that a test's result carries, if it carries one.
pub open spec fn finding_of(res: Result<(), ValidationError>) -> Option<FindingModel> {
    match res {
        Ok(_) => None,
        Err(e) => Some(e@),
    }
}

/// The product IDs that the document refers to and does not define.
pub open spec fn missing_definitions(doc: DocumentModel) -> Set<Seq<char>> {
    references(doc).difference(definitions(doc).to_set())
}

/// The finding of the test for missing definitions: none where every product ID that the
/// document refers to is defined, else one that lists the others in lexicographic order.
pub open spec fn outcome_6_01_01(doc: DocumentModel) -> Option<FindingModel> {
    let missing = sorted_ids(missing_definitions(doc));
    if missing.len() == 0 {
        None
    } else {
        Some(
            FindingModel {
                message: "Missing definitions: "@ + bracketed(debug_texts(missing)),
                instance_path: "/product_tree"@,
            },
        )
    }
}

/// The missing definitions are listed in lexicographic order, each once.
pub proof fn lemma_missing_definitions_in_order(doc: DocumentModel)
    ensures
        strictly_sorted(sorted_ids(missing_definitions(doc))),
        sorted_ids(missing_definitions(doc)).to_set() == missing_definitions(doc),
        outcome_6_01_01(doc) is None <==> references(doc).subset_of(definitions(doc).to_set()),
{
    broadcast use vstd::set::group_set_axioms;

    lemma_references_finite(doc);
    lemma_sorted_ids_of_finite(missing_definitions(doc));
    let listed = sorted_ids(missing_definitions(doc));
    let defined = definitions(doc).to_set();
    if references(doc).subset_of(defined) {
        assert(missing_definitions(doc) =~= Set::<Seq<char>>::empty());
        if listed.len() > 0 {
            assert(listed.to_set().contains(listed[0]));
        }
    } else {
        let x = choose|x: Seq<char>| references(doc).contains(x) && !defined.contains(x);
        assert(missing_definitions(doc).contains(x));
        assert(listed.contains(x));
    }
}

/// Missing definition of product ID: every product ID that the document refers to must be
/// defined in its product tree.
pub fn test_6_01_01_missing_definition_of_product_id<D: CsafTrait>(doc: &D) -> (res: Result<
    (),
    ValidationError,
>)
    ensures
        finding_of(res) == outcome_6_01_01(doc@),
        res is Ok <==> references(doc@).subset_of(definitions(doc@).to_set()),
        strictly_sorted(sorted_ids(missing_definitions(doc@))),
        sorted_ids(missing_definitions(doc@)).to_set() == missing_definitions(doc@),
{
    let definitions = gather_product_definitions(doc);
    let references = gather_product_references(doc);
    let missing = references.without(&definitions);
    let listed = missing.items();
    proof {
        let defined = texts(definitions@).to_set();
        if references@.subset_of(defined) {
            assert(missing@ =~= Set::<Seq<char>>::empty());
        } else {
            let x = choose|x: Seq<char>| references@.contains(x) && !defined.contains(x);
            assert(missing@.contains(x));
        }
    }
    if missing.len() == 0 {
        Ok(())
    } else {
        let mut message = String::from_str("Missing definitions: ");
        message.append(debug_list_string(listed).as_str());
        Err(ValidationError { message, instance_path: String::from_str("/product_tree") })
    }
}

/// The finding of the test for multiple definitions: none where no product ID is defined
/// more than once, else one that lists those that are, in lexicographic order.
pub open spec fn outcome_6_01_02(doc: DocumentModel) -> Option<FindingModel> {
    let twice = sorted_ids(duplicates(definitions(doc)));
    if twice.len() == 0 {
        None
    } else {
        Some(
            FindingModel {
                message: "Duplicate definitions: "@ + braced(debug_texts(twice)),
                instance_path: "/product_tree"@,
            },
        )
    }
}

/// Multiple definition of product ID: no product ID may be defined more than once.
pub fn test_6_01_02_multiple_definition_of_product_id<D: CsafTrait>(doc: &D) -> (res: Result<
    (),
    ValidationError,
>)
    ensures
        finding_of(res) == outcome_6_01_02(doc@),
        res is Ok <==> definitions(doc@).no_duplicates(),
        strictly_sorted(sorted_ids(duplicates(definitions(doc@)))),
        sorted_ids(duplicates(definitions(doc@))).to_set() == duplicates(definitions(doc@)),
{
    let definitions = gather_product_definitions(doc);
    let twice = find_duplicates(&definitions);
    let listed = twice.items();
    proof {
        let ids = texts(definitions@);
        if ids.no_duplicates() {
            assert(duplicates(ids) =~= Set::<Seq<char>>::empty());
        } else {
            let (i, j) = choose|i: int, j: int|
                0 <= i < ids.len() && 0 <= j < ids.len() && i != j && ids[i] == ids[j];
            if i < j {
                assert(duplicates(ids).contains(ids[i]));
            } else {
                assert(duplicates(ids).contains(ids[j]));
            }
        }
    }
    if twice.len() == 0 {
        Ok(())
    } else {
        let mut message = String::from_str("Duplicate definitions: ");
        message.append(debug_set_string(listed).as_str());
        Err(ValidationError { message, instance_path: String::from_str("/product_tree") })
    }
}

/// The most branches that may lie on one path down the product tree.
pub const MAX_BRANCH_DEPTH: usize = 30;

/// The number of branches on the longest path down the product tree of the document.
pub open spec fn tree_depth(doc: DocumentModel) -> nat {
    match doc.product_tree {
        Some(tree) => forest_depth(tree.branches),
        None => 0,
    }
}

/// The finding of the test for the depth of the branches.
pub open spec fn outcome_6_01_34(doc: DocumentModel) -> Option<FindingModel> {
    if tree_depth(doc) <= MAX_BRANCH_DEPTH {
        None
    } else {
        Some(
            FindingModel {
                message: "Branches recursion depth too big (> 30)"@,
                instance_path: "/product_tree/branches"@,
            },
        )
    }
}

/// Branches recursion depth: no path down the product tree may hold more than 30 branches.
pub fn test_6_01_34_branches_recursion_depth<D: CsafTrait>(doc: &D) -> (res: Result<
    (),
    ValidationError,
>)
    ensures
        finding_of(res) == outcome_6_01_34(doc@),
        res is Ok <==> tree_depth(doc@) <= 30,
{
    if let Some(tree) = doc.get_product_tree() {
        if !check_branch_depth_tree(tree, MAX_BRANCH_DEPTH) {
            return Err(
                ValidationError {
                    message: String::from_str("Branches recursion depth too big (> 30)"),
                    instance_path: String::from_str("/product_tree/branches"),
                },
            );
        }
    }
    Ok(())
}

/// Whether the remediation affects the product.
pub open spec fn affects(
    rem: RemediationModel,
    tree: Option<ProductTreeModel>,
    p: Seq<char>,
) -> bool {
    match affected_products(rem, tree) {
        Some(products) => products.contains(p),
        None => false,
    }
}

/// The categories of the first `upto` remediations that affect the product, in their order.
pub open spec fn prior_categories(
    rems: Seq<RemediationModel>,
    tree: Option<ProductTreeModel>,
    upto: int,
    p: Seq<char>,
) -> Seq<CategoryOfTheRemediation>
    decreases upto,
{
    if upto <= 0 {
        Seq::empty()
    } else {
        let before = prior_categories(rems, tree, upto - 1, p);
        if affects(rems[upto - 1], tree, p) {
            before.push(rems[upto - 1].category)
        } else {
            before
        }
    }
}

/// Whether one of the categories contradicts `category`.
pub open spec fn contradicted(
    prior: Seq<CategoryOfTheRemediation>,
    category: CategoryOfTheRemediation,
) -> bool {
    exists|i: int| 0 <= i < prior.len() && (#[trigger] prior[i]).contradicts(category)
}

/// The names of the categories, in the same order.
pub open spec fn category_names(categories: Seq<CategoryOfTheRemediation>) -> Seq<Seq<char>> {
    Seq::new(categories.len(), |i: int| categories[i].name())
}

/// The finding for a product with contradicting remediations: `prior` are the categories
/// that the product had before remediation `i_r` of vulnerability `i_v` gave it `category`.
pub open spec fn contradiction_finding(
    p: Seq<char>,
    prior: Seq<CategoryOfTheRemediation>,
    category: CategoryOfTheRemediation,
    i_v: int,
    i_r: int,
) -> FindingModel {
    FindingModel {
        message: "Product "@ + p + " has contradicting remediations: "@ + join(
            category_names(prior),
            ", "@,
        ) + " and "@ + category.name(),
        instance_path: "/vulnerabilities/"@ + decimal(i_v as nat) + "/remediations/"@ + decimal(
            i_r as nat,
        ),
    }
}

/// What remediation `i_r` gives for one product that it affects.
pub open spec fn contradiction_of_product(
    rems: Seq<RemediationModel>,
    tree: Option<ProductTreeModel>,
    i_v: int,
    i_r: int,
    p: Seq<char>,
) -> Option<FindingModel> {
    let prior = prior_categories(rems, tree, i_r, p);
    if contradicted(prior, rems[i_r].category) {
        Some(contradiction_finding(p, prior, rems[i_r].category, i_v, i_r))
    } else {
        None
    }
}

/// What remediation `i_r` gives for each product that it affects, the products in
/// lexicographic order.
pub open spec fn contradictions_of_products(
    rems: Seq<RemediationModel>,
    tree: Option<ProductTreeModel>,
    i_v: int,
    i_r: int,
) -> Seq<Option<FindingModel>> {
    match affected_products(rems[i_r], tree) {
        Some(products) => {
            let sorted = sorted_ids(products);
            Seq::new(
                sorted.len(),
                |k: int| contradiction_of_product(rems, tree, i_v, i_r, sorted[k]),
            )
        },
        None => Seq::empty(),
    }
}

/// What each remediation of one vulnerability gives, in the order of the remediations.
pub open spec fn contradictions_of_remediations(
    rems: Seq<RemediationModel>,
    tree: Option<ProductTreeModel>,
    i_v: int,
) -> Seq<Option<FindingModel>> {
    Seq::new(
        rems.len(),
        |i_r: int| first_some(contradictions_of_products(rems, tree, i_v, i_r)),
    )
}

/// What each vulnerability gives, in document order.
pub open spec fn contradictions_of_vulnerabilities(
    vs: Seq<VulnerabilityModel>,
    tree: Option<ProductTreeModel>,
) -> Seq<Option<FindingModel>> {
    Seq::new(
        vs.len(),
        |i_v: int| first_some(contradictions_of_remediations(vs[i_v].remediations, tree, i_v)),
    )
}

/// The finding of the test for contradicting remediations: that of the first vulnerability,
/// in it of the first remediation, and for it of the first product in lexicographic order,
/// such that an earlier remediation of the vulnerability gave the product a category that
/// contradicts the category of this one.
pub open spec fn outcome_6_01_35(doc: DocumentModel) -> Option<FindingModel> {
    first_some(contradictions_of_vulnerabilities(doc.vulnerabilities, doc.product_tree))
}

/// Whether remediations `i` and `j` of a vulnerability contradict each other on the product:
/// both affect it, and their categories are both measures or both states of a fix.
pub open spec fn contradicting_pair(
    rems: Seq<RemediationModel>,
    tree: Option<ProductTreeModel>,
    i: int,
    j: int,
    p: Seq<char>,
) -> bool {
    &&& 0 <= i < j < rems.len()
    &&& affects(rems[i], tree, p)
    &&& affects(rems[j], tree, p)
    &&& rems[i].category.contradicts(rems[j].category)
}

/// Whether some vulnerability of the document has two remediations that contradict each
/// other on a product.
pub open spec fn has_contradiction(doc: DocumentModel) -> bool {
    exists|v: int, i: int, j: int, p: Seq<char>|
        0 <= v < doc.vulnerabilities.len() && #[trigger] contradicting_pair(
            doc.vulnerabilities[v].remediations,
            doc.product_tree,
            i,
            j,
            p,
        )
}

/// The categories that a product had are contradicted exactly where an earlier remediation
/// that affects the product has a contradicting category.
pub proof fn lemma_prior_categories(
    rems: Seq<RemediationModel>,
    tree: Option<ProductTreeModel>,
    upto: int,
    p: Seq<char>,
    category: CategoryOfTheRemediation,
)
    requires
        0 <= upto <= rems.len(),
    ensures
        contradicted(prior_categories(rems, tree, upto, p), category) <==> exists|i: int|
            0 <= i < upto && affects(#[trigger] rems[i], tree, p) && rems[i].category.contradicts(
                category,
            ),
    decreases upto,
{
    if upto > 0 {
        lemma_prior_categories(rems, tree, upto - 1, p, category);
        let before = prior_categories(rems, tree, upto - 1, p);
        let prior = prior_categories(rems, tree, upto, p);
        let last = rems[upto - 1];
        if contradicted(prior, category) {
            let k = choose|k: int|
                0 <= k < prior.len() && (#[trigger] prior[k]).contradicts(category);
            if affects(last, tree, p) && k == prior.len() - 1 {
                assert(affects(rems[upto - 1], tree, p) && rems[upto - 1].category.contradicts(
                    category,
                ));
            } else {
                assert(before[k].contradicts(category));
                assert(contradicted(before, category));
                let i = choose|i: int|
                    0 <= i < upto - 1 && affects(#[trigger] rems[i], tree, p)
                        && rems[i].category.contradicts(category);
                assert(affects(rems[i], tree, p));
            }
        }
        if exists|i: int|
            0 <= i < upto && affects(#[trigger] rems[i], tree, p) && rems[i].category.contradicts(
                category,
            ) {
            let i = choose|i: int|
                0 <= i < upto && affects(#[trigger] rems[i], tree, p)
                    && rems[i].category.contradicts(category);
            if i == upto - 1 {
                assert(prior[prior.len() - 1].contradicts(category));
            } else {
                assert(contradicted(before, category));
                let k = choose|k: int|
                    0 <= k < before.len() && (#[trigger] before[k]).contradicts(category);
                assert(prior[k].contradicts(category));
            }
        }
    }
}

/// The test fails exactly the documents in which two remediations of one vulnerability
/// contradict each other on a product.
pub proof fn lemma_fails_iff_contradiction(doc: DocumentModel)
    ensures
        outcome_6_01_35(doc) is Some <==> has_contradiction(doc),
{
    let vs = doc.vulnerabilities;
    let tree = doc.product_tree;
    let of_vs = contradictions_of_vulnerabilities(vs, tree);
    lemma_first_some_none(of_vs);
    if outcome_6_01_35(doc) is Some {
        let v = choose|v: int| 0 <= v < of_vs.len() && of_vs[v] is Some;
        let rems = vs[v].remediations;
        let of_rems = contradictions_of_remediations(rems, tree, v);
        lemma_first_some_none(of_rems);
        let j = choose|j: int| 0 <= j < of_rems.len() && of_rems[j] is Some;
        let of_products = contradictions_of_products(rems, tree, v, j);
        lemma_first_some_none(of_products);
        let k = choose|k: int| 0 <= k < of_products.len() && of_products[k] is Some;
        let products = affected_products(rems[j], tree)->0;
        lemma_affected_products_finite(rems[j], tree);
        lemma_sorted_ids_of_finite(products);
        let p = sorted_ids(products)[k];
        assert(sorted_ids(products).to_set().contains(p));
        lemma_prior_categories(rems, tree, j, p, rems[j].category);
        let i = choose|i: int|
            0 <= i < j && affects(#[trigger] rems[i], tree, p) && rems[i].category.contradicts(
                rems[j].category,
            );
        assert(contradicting_pair(vs[v].remediations, tree, i, j, p));
    }
    if has_contradiction(doc) {
        let (v, i, j, p) = choose|v: int, i: int, j: int, p: Seq<char>|
            0 <= v < vs.len() && #[trigger] contradicting_pair(vs[v].remediations, tree, i, j, p);
        let rems = vs[v].remediations;
        let products = affected_products(rems[j], tree)->0;
        lemma_affected_products_finite(rems[j], tree);
        lemma_sorted_ids_of_finite(products);
        let sorted = sorted_ids(products);
        assert(sorted.to_set().contains(p));
        let k = choose|k: int| 0 <= k < sorted.len() && sorted[k] == p;
        lemma_prior_categories(rems, tree, j, p, rems[j].category);
        assert(affects(rems[i], tree, p));
        let of_products = contradictions_of_products(rems, tree, v, j);
        assert(of_products[k] is Some);
        lemma_first_some_none(of_products);
        let of_rems = contradictions_of_remediations(rems, tree, v);
        assert(of_rems[j] is Some);
        lemma_first_some_none(of_rems);
        assert(of_vs[v] is Some);
    }
}

/// Collects the categories of the remediations before `i_r` that affect the product.
fn categories_before<R: RemediationTrait>(
    remediations: &Vec<R>,
    affected: &Vec<Option<IdSet>>,
    tree: Ghost<Option<ProductTreeModel>>,
    i_r: usize,
    product: &String,
) -> (r: Vec<CategoryOfTheRemediation>)
    requires
        i_r <= remediations.len(),
        affected.len() == remediations.len(),
        forall|i: int|
            0 <= i < affected.len() ==> option_view(#[trigger] affected[i]) == affected_products(
                remediations[i]@,
                tree@,
            ),
    ensures
        r@ == prior_categories(views(remediations@), tree@, i_r as int, product@),
{
    let ghost models = views(remediations@);
    let mut prior: Vec<CategoryOfTheRemediation> = Vec::new();
    let mut i: usize = 0;
    while i < i_r
        invariant
            0 <= i <= i_r <= remediations.len(),
            affected.len() == remediations.len(),
            models == views(remediations@),
            forall|k: int|
                0 <= k < affected.len() ==> option_view(#[trigger] affected[k])
                    == affected_products(remediations[k]@, tree@),
            prior@ == prior_categories(models, tree@, i as int, product@),
        decreases i_r - i,
    {
        assert(option_view(affected[i as int]) == affected_products(models[i as int], tree@));
        let affects_product = match &affected[i] {
            Some(products) => products.contains(product),
            None => false,
        };
        if affects_product {
            prior.push(remediations[i].get_category());
        }
        i += 1;
    }
    prior
}

/// Whether one of the categories contradicts `category`.
fn any_contradicts(
    prior: &Vec<CategoryOfTheRemediation>,
    category: &CategoryOfTheRemediation,
) -> (r: bool)
    ensures
        r == contradicted(prior@, *category),
{
    let mut i: usize = 0;
    while i < prior.len()
        invariant
            0 <= i <= prior.len(),
            forall|j: int| 0 <= j < i ==> !(#[trigger] prior@[j]).contradicts(*category),
        decreases prior.len() - i,
    {
        if prior[i].is_contradicted_by(category) {
            return true;
        }
        i += 1;
    }
    false
}

/// Makes the finding for a product with contradicting remediations.
pub fn contradiction_error(
    product: &String,
    prior: &Vec<CategoryOfTheRemediation>,
    category: &CategoryOfTheRemediation,
    i_v: usize,
    i_r: usize,
) -> (r: ValidationError)
    ensures
        r@ == contradiction_finding(product@, prior@, *category, i_v as int, i_r as int),
{
    let mut names: Vec<String> = Vec::new();
    let mut i: usize = 0;
    while i < prior.len()
        invariant
            0 <= i <= prior.len(),
            texts(names@) == category_names(prior@).take(i as int),
        decreases prior.len() - i,
    {
        let ghost before = texts(names@);
        names.push(prior[i].to_string());
        proof {
            let all = category_names(prior@);
            assert(texts(names@) =~= before.push(all[i as int]));
            assert(all.take(i + 1) =~= all.take(i as int).push(all[i as int]));
        }
        i += 1;
    }
    proof {
        let all = category_names(prior@);
        assert(all.take(prior.len() as int) =~= all);
    }
    let mut message = String::from_str("Product ");
    message.append(product.as_str());
    message.append(" has contradicting remediations: ");
    message.append(join_strings(&names, ", ").as_str());
    message.append(" and ");
    message.append(category.as_str());
    let mut instance_path = String::from_str("/vulnerabilities/");
    instance_path.append(decimal_string(i_v).as_str());
    instance_path.append("/remediations/");
    instance_path.append(decimal_string(i_r).as_str());
    ValidationError { message, instance_path }
}

/// Looks through the remediations of one vulnerability for a product with contradicting
/// remediations.
fn check_remediations<V: VulnerabilityTrait, D: CsafTrait>(
    vulnerability: &V,
    doc: &D,
    i_v: usize,
) -> (res: Result<(), ValidationError>)
    ensures
        finding_of(res) == first_some(
            contradictions_of_remediations(
                vulnerability@.remediations,
                doc@.product_tree,
                i_v as int,
            ),
        ),
{
    let remediations = vulnerability.get_remediations();
    let ghost models = vulnerability@.remediations;
    let ghost tree = doc@.product_tree;
    let mut affected: Vec<Option<IdSet>> = Vec::new();
    let mut i: usize = 0;
    while i < remediations.len()
        invariant
            0 <= i <= remediations.len(),
            affected.len() == i,
            models == views(remediations@),
            tree == doc@.product_tree,
            forall|k: int|
                0 <= k < i ==> option_view(#[trigger] affected[k]) == affected_products(
                    remediations[k]@,
                    tree,
                ),
        decreases remediations.len() - i,
    {
        let products = get_all_product_ids(&remediations[i], doc);
        affected.push(products);
        i += 1;
    }
    let ghost findings = contradictions_of_remediations(models, tree, i_v as int);
    let mut i_r: usize = 0;
    while i_r < remediations.len()
        invariant
            0 <= i_r <= remediations.len(),
            affected.len() == remediations.len(),
            models == views(remediations@),
            models == vulnerability@.remediations,
            tree == doc@.product_tree,
            findings == contradictions_of_remediations(models, tree, i_v as int),
            forall|k: int|
                0 <= k < affected.len() ==> option_view(#[trigger] affected[k])
                    == affected_products(remediations[k]@, tree),
            forall|j: int| 0 <= j < i_r ==> findings[j] is None,
        decreases remediations.len() - i_r,
    {
        let ghost of_products = contradictions_of_products(models, tree, i_v as int, i_r as int);
        assert(option_view(affected[i_r as int]) == affected_products(models[i_r as int], tree));
        if let Some(products) = &affected[i_r] {
            let category = remediations[i_r].get_category();
            let sorted = products.items();
            let mut k: usize = 0;
            while k < sorted.len()
                invariant
                    0 <= k <= sorted.len(),
                    0 <= i_r < remediations.len(),
                    affected.len() == remediations.len(),
                    models == views(remediations@),
                    models == vulnerability@.remediations,
                    tree == doc@.product_tree,
                    category == models[i_r as int].category,
                    affected_products(models[i_r as int], tree) == Some(products@),
                    texts(sorted@) == sorted_ids(products@),
                    of_products == contradictions_of_products(models, tree, i_v as int, i_r as int),
                    findings == contradictions_of_remediations(models, tree, i_v as int),
                    forall|q: int|
                        0 <= q < affected.len() ==> option_view(#[trigger] affected[q])
                            == affected_products(remediations[q]@, tree),
                    forall|j: int| 0 <= j < i_r ==> findings[j] is None,
                    forall|j: int| 0 <= j < k ==> of_products[j] is None,
                decreases sorted.len() - k,
            {
                let product = &sorted[k];
                let prior = categories_before(remediations, &affected, Ghost(tree), i_r, product);
                if any_contradicts(&prior, &category) {
                    let e = contradiction_error(product, &prior, &category, i_v, i_r);
                    proof {
                        assert(texts(sorted@)[k as int] == sorted@[k as int]@);
                        assert(of_products[k as int] == Some(e@));
                        lemma_first_some_at(of_products, k as int);
                        assert(findings[i_r as int] == first_some(of_products));
                        lemma_first_some_at(findings, i_r as int);
                    }
                    return Err(e);
                }
                k += 1;
            }
        }
        proof {
            lemma_first_some_none(of_products);
        }
        i_r += 1;
    }
    proof {
        lemma_first_some_none(findings);
    }
    Ok(())
}

/// Contradicting remediations: within one vulnerability no product may have two remediations
/// whose categories are both measures or both states of a fix.
pub fn test_6_01_35_contradicting_remediations<D: CsafTrait>(target: &D) -> (res: Result<
    (),
    ValidationError,
>)
    ensures
        finding_of(res) == outcome_6_01_35(target@),
        res is Err <==> has_contradiction(target@),
{
    proof {
        lemma_fails_iff_contradiction(target@);
    }
    let vulnerabilities = target.get_vulnerabilities();
    let ghost findings = contradictions_of_vulnerabilities(
        target@.vulnerabilities,
        target@.product_tree,
    );
    let mut i_v: usize = 0;
    while i_v < vulnerabilities.len()
        invariant
            0 <= i_v <= vulnerabilities.len(),
            views(vulnerabilities@) == target@.vulnerabilities,
            findings == contradictions_of_vulnerabilities(
                target@.vulnerabilities,
                target@.product_tree,
            ),
            outcome_6_01_35(target@) is Some <==> has_contradiction(target@),
            forall|j: int| 0 <= j < i_v ==> findings[j] is None,
        decreases vulnerabilities.len() - i_v,
    {
        match check_remediations(&vulnerabilities[i_v], target, i_v) {
            Err(e) => {
                proof {
                    lemma_first_some_at(findings, i_v as int);
                }
                return Err(e);
            },
            Ok(_) => {},
        }
        i_v += 1;
    }
    proof {
        lemma_first_some_none(findings);
    }
    Ok(())
}

/// A named set of tests.
#[derive(Clone, Copy, Debug, PartialEq, Eq, Structural, Hash)]
pub enum ValidationPreset {
    Basic,
    Extended,
    Full,
}

/// The preset that a name stands for.
pub open spec fn preset_of_name(name: Seq<char>) -> Result<ValidationPreset, ()> {
    if name == "basic"@ {
        Ok(ValidationPreset::Basic)
    } else if name == "extended"@ {
        Ok(ValidationPreset::Extended)
    } else if name == "full"@ {
        Ok(ValidationPreset::Full)
    } else {
        Err(())
    }
}

impl ValidationPreset {
    /// Reads the name of a preset: `basic`, `extended` or `full`.
    pub fn from_str(input: &str) -> (r: Result<ValidationPreset, ()>)
        ensures
            r == preset_of_name(input@),
    {
        if same_text(input, "basic") {
            Ok(ValidationPreset::Basic)
        } else if same_text(input, "extended") {
            Ok(ValidationPreset::Extended)
        } else if same_text(input, "full") {
            Ok(ValidationPreset::Full)
        } else {
            Err(())
        }
    }
}

/// A conformance test that this library implements.
#[derive(Clone, Copy, Debug, PartialEq, Eq, Structural, Hash)]
pub enum Test {
    MissingDefinitionOfProductId,
    MultipleDefinitionOfProductId,
    CircularDefinitionOfProductId,
    BranchesRecursionDepth,
    ContradictingRemediations,
    InvalidSsvc,
    InconsistentSsvcTimestamp,
}

/// The test that an identifier names, if it names one.
pub open spec fn test_of_id(id: Seq<char>) -> Option<Test> {
    if id == "6.1.01"@ {
        Some(Test::MissingDefinitionOfProductId)
    } else if id == "6.1.02"@ {
        Some(Test::MultipleDefinitionOfProductId)
    } else if id == "6.1.03"@ {
        Some(Test::CircularDefinitionOfProductId)
    } else if id == "6.1.34"@ {
        Some(Test::BranchesRecursionDepth)
    } else if id == "6.1.35"@ {
        Some(Test::ContradictingRemediations)
    } else if id == "6.1.46"@ {
        Some(Test::InvalidSsvc)
    } else if id == "6.1.49"@ {
        Some(Test::InconsistentSsvcTimestamp)
    } else {
        None
    }
}

impl Test {
    /// The identifier of the test.
    pub open spec fn id_text(self) -> Seq<char> {
        match self {
            Test::MissingDefinitionOfProductId => "6.1.01"@,
            Test::MultipleDefinitionOfProductId => "6.1.02"@,
            Test::CircularDefinitionOfProductId => "6.1.03"@,
            Test::BranchesRecursionDepth => "6.1.34"@,
            Test::ContradictingRemediations => "6.1.35"@,
            Test::InvalidSsvc => "6.1.46"@,
            Test::InconsistentSsvcTimestamp => "6.1.49"@,
        }
    }

    /// The finding of the test on a document, and `None` where the document passes.
    pub open spec fn outcome(self, doc: DocumentModel) -> Option<FindingModel> {
        match self {
            Test::MissingDefinitionOfProductId => outcome_6_01_01(doc),
            Test::MultipleDefinitionOfProductId => outcome_6_01_02(doc),
            Test::CircularDefinitionOfProductId => outcome_6_1_03(doc),
            Test::BranchesRecursionDepth => outcome_6_01_34(doc),
            Test::ContradictingRemediations => outcome_6_01_35(doc),
            Test::InvalidSsvc => outcome_6_1_46(doc),
            Test::InconsistentSsvcTimestamp => outcome_6_1_49(doc),
        }
    }

    /// The identifier of the test.
    pub fn id(&self) -> (r: &'static str)
        ensures
            r@ == self.id_text(),
    {
        match self {
            Test::MissingDefinitionOfProductId => "6.1.01",
            Test::MultipleDefinitionOfProductId => "6.1.02",
            Test::CircularDefinitionOfProductId => "6.1.03",
            Test::BranchesRecursionDepth => "6.1.34",
            Test::ContradictingRemediations => "6.1.35",
            Test::InvalidSsvc => "6.1.46",
            Test::InconsistentSsvcTimestamp => "6.1.49",
        }
    }

    /// The test that `id` names, or `None` where it names none.
    pub fn from_id(id: &str) -> (r: Option<Test>)
        ensures
            r == test_of_id(id@),
    {
        if same_text(id, "6.1.01") {
            Some(Test::MissingDefinitionOfProductId)
        } else if same_text(id, "6.1.02") {
            Some(Test::MultipleDefinitionOfProductId)
        } else if same_text(id, "6.1.03") {
            Some(Test::CircularDefinitionOfProductId)
        } else if same_text(id, "6.1.34") {
            Some(Test::BranchesRecursionDepth)
        } else if same_text(id, "6.1.35") {
            Some(Test::ContradictingRemediations)
        } else if same_text(id, "6.1.46") {
            Some(Test::InvalidSsvc)
        } else if same_text(id, "6.1.49") {
            Some(Test::InconsistentSsvcTimestamp)
        } else {
            None
        }
    }

    /// Runs the test on a document.
    pub fn run<D: CsafTrait>(&self, doc: &D) -> (res: Result<(), ValidationError>)
        ensures
            finding_of(res) == self.outcome(doc@),
    {
        match self {
            Test::MissingDefinitionOfProductId => test_6_01_01_missing_definition_of_product_id(
                doc,
            ),
            Test::MultipleDefinitionOfProductId => test_6_01_02_multiple_definition_of_product_id(
                doc,
            ),
            Test::CircularDefinitionOfProductId => test_6_1_03_circular_definition_of_product_id(
                doc,
            ),
            Test::BranchesRecursionDepth => test_6_01_34_branches_recursion_depth(doc),
            Test::ContradictingRemediations => test_6_01_35_contradicting_remediations(doc),
            Test::InvalidSsvc => test_6_1_46_invalid_ssvc(doc),
            Test::InconsistentSsvcTimestamp => test_6_1_49_inconsistent_ssvc_timestamp(doc),
        }
    }
}

/// Every test is the one that its own identifier names.
pub proof fn lemma_test_of_own_id(test: Test)
    ensures
        test_of_id(test.id_text()) == Some(test),
{
    reveal_strlit("6.1.01");
    reveal_strlit("6.1.02");
    reveal_strlit("6.1.03");
    reveal_strlit("6.1.34");
    reveal_strlit("6.1.35");
    reveal_strlit("6.1.46");
    reveal_strlit("6.1.49");
    assert("6.1.01"@[5] == '1' && "6.1.01"@[4] == '0');
    assert("6.1.02"@[5] == '2' && "6.1.02"@[4] == '0');
    assert("6.1.03"@[5] == '3' && "6.1.03"@[4] == '0');
    assert("6.1.34"@[5] == '4' && "6.1.34"@[4] == '3');
    assert("6.1.35"@[5] == '5' && "6.1.35"@[4] == '3');
    assert("6.1.46"@[5] == '6' && "6.1.46"@[4] == '4');
    assert("6.1.49"@[5] == '9' && "6.1.49"@[4] == '4');
}

/// How a test ended.
#[derive(Debug, PartialEq, Eq)]
pub enum TestResult {
    /// The document passes the test.
    Success,
    /// The document fails the test, with this finding.
    Failure(ValidationError),
    /// No test is registered under the identifier.
    NotFound,
}

/// How a test ended, the finding by its view.
#[verifier::ext_equal]
pub enum TestResultModel {
    Success,
    Failure(FindingModel),
    NotFound,
}

impl View for TestResult {
    type V = TestResultModel;

    open spec fn view(&self) -> TestResultModel {
        match self {
            TestResult::Success => TestResultModel::Success,
            TestResult::Failure(e) => TestResultModel::Failure(e@),
            TestResult::NotFound => TestResultModel::NotFound,
        }
    }
}

/// The result of one test of a preset.
#[derive(Debug, PartialEq, Eq)]
pub struct TestReport {
    pub test_id: String,
    pub result: TestResult,
}

/// The result of one test of a preset, by its view.
#[verifier::ext_equal]
pub struct TestReportModel {
    pub test_id: Seq<char>,
    pub result: TestResultModel,
}

impl View for TestReport {
    type V = TestReportModel;

    open spec fn view(&self) -> TestReportModel {
        TestReportModel { test_id: self.test_id@, result: self.result@ }
    }
}

/// The finding for an identifier under which no test is registered.
pub open spec fn missing_implementation_finding(test_id: Seq<char>) -> FindingModel {
    FindingModel {
        message: "Test with ID "@ + test_id + " is missing implementation"@,
        instance_path: ""@,
    }
}

/// The finding that a report stands for: none for a test that passed, the finding of a test
/// that failed, and the finding of the missing implementation for a test that was not found.
pub open spec fn reported_finding(report: TestReportModel) -> Option<FindingModel> {
    match report.result {
        TestResultModel::Success => None,
        TestResultModel::Failure(finding) => Some(finding),
        TestResultModel::NotFound => Some(missing_implementation_finding(report.test_id)),
    }
}

impl TestReport {
    /// The finding that the report stands for, if it stands for one.
    pub fn finding(&self) -> (r: Option<ValidationError>)
        ensures
            option_view(r) == reported_finding(self@),
    {
        match &self.result {
            TestResult::Success => None,
            TestResult::Failure(e) => Some(
                ValidationError {
                    message: e.message.clone(),
                    instance_path: e.instance_path.clone(),
                },
            ),
            TestResult::NotFound => {
                let mut message = String::from_str("Test with ID ");
                message.append(self.test_id.as_str());
                message.append(" is missing implementation");
                Some(ValidationError { message, instance_path: String::from_str("") })
            },
        }
    }
}

/// How the test that a registry gave for an identifier ends on a document.
pub open spec fn test_result(test: Option<Test>, doc: DocumentModel) -> TestResultModel {
    match test {
        Some(test) => match test.outcome(doc) {
            Some(finding) => TestResultModel::Failure(finding),
            None => TestResultModel::Success,
        },
        None => TestResultModel::NotFound,
    }
}

/// Something that can be validated: a document of one revision with the registry of that
/// revision, which maps identifiers to tests and presets to lists of identifiers.
pub trait Validatable<VersionedDocument: CsafTrait> {
    /// The identifiers of the tests of a preset, in the order in which they run.
    spec fn preset_ids(&self, preset: ValidationPreset) -> Seq<Seq<char>>;

    /// The test that is registered under an identifier.
    spec fn registered(&self, test_id: Seq<char>) -> Option<Test>;

    /// The document.
    spec fn document(&self) -> DocumentModel;

    /// Returns the identifiers of the tests of a preset, in the order in which they run.
    fn presets(&self, preset: ValidationPreset) -> (r: Vec<String>)
        ensures
            texts(r@) == self.preset_ids(preset),
    ;

    /// Returns the test that is registered under an identifier, if one is.
    fn tests(&self, test_id: &str) -> (r: Option<Test>)
        ensures
            r == self.registered(test_id@),
    ;

    fn doc(&self) -> (r: &VersionedDocument)
        ensures
            r@ == self.document(),
    ;

    /// The full preset holds every registered test.
    proof fn lemma_full_preset(&self, test_id: Seq<char>)
        requires
            self.registered(test_id) is Some,
        ensures
            self.preset_ids(ValidationPreset::Full).contains(test_id),
    ;
}

/// The reports of the tests of a preset, one for each identifier and in their order.
pub open spec fn preset_reports<VersionedDocument: CsafTrait, V: Validatable<VersionedDocument>>(
    target: &V,
    preset: ValidationPreset,
) -> Seq<TestReportModel> {
    let ids = target.preset_ids(preset);
    Seq::new(
        ids.len(),
        |i: int|
            TestReportModel {
                test_id: ids[i],
                result: test_result(target.registered(ids[i]), target.document()),
            },
    )
}

/// Runs the test that is registered under `test_id`. An identifier that names no registered
/// test gives `NotFound`.
pub fn validate_by_test<VersionedDocument: CsafTrait, V: Validatable<VersionedDocument>>(
    target: &V,
    test_id: &str,
) -> (r: TestResult)
    ensures
        r@ == test_result(target.registered(test_id@), target.document()),
{
    match target.tests(test_id) {
        Some(test) => match test.run(target.doc()) {
            Ok(_) => TestResult::Success,
            Err(e) => TestResult::Failure(e),
        },
        None => TestResult::NotFound,
    }
}

/// Runs the tests of a preset one after another and returns their reports in that order. A
/// test that fails does not keep the following ones from running.
pub fn validate_by_preset<VersionedDocument: CsafTrait, V: Validatable<VersionedDocument>>(
    target: &V,
    preset: ValidationPreset,
) -> (r: Vec<TestReport>)
    ensures
        views(r@) == preset_reports(target, preset),
{
    let ids = target.presets(preset);
    let mut reports: Vec<TestReport> = Vec::new();
    let mut i: usize = 0;
    while i < ids.len()
        invariant
            0 <= i <= ids.len(),
            texts(ids@) == target.preset_ids(preset),
            views(reports@) == preset_reports(target, preset).take(i as int),
        decreases ids.len() - i,
    {
        let ghost before = views(reports@);
        let result = validate_by_test(target, ids[i].as_str());
        reports.push(TestReport { test_id: ids[i].clone(), result });
        proof {
            let all = preset_reports(target, preset);
            assert(texts(ids@)[i as int] == ids@[i as int]@);
            assert(views(reports@) =~= before.push(all[i as int]));
            assert(all.take(i + 1) =~= all.take(i as int).push(all[i as int]));
        }
        i += 1;
    }
    proof {
        let all = preset_reports(target, preset);
        assert(all.take(ids.len() as int) =~= all);
    }
    reports
}

/// Validation as a method of the document.
pub trait Validate {
    /// Validates the document with the tests of a preset.
    fn validate_preset(&self, preset: ValidationPreset) -> Vec<TestReport>;

    /// Validates the document with the test that an identifier names.
    fn validate_by_test(&self, test_id: &str) -> TestResult;
}

} // verus!
