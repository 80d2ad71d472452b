use csaf_lib::csaf::csaf2_0::schema::{
    CategoryOfTheRemediation as Category20, CommonSecurityAdvisoryFramework as Csaf20,
    Remediation as Remediation20, Vulnerability as Vulnerability20,
};
use csaf_lib::csaf::csaf2_1::schema::{
    CategoryOfTheRemediation, CommonSecurityAdvisoryFramework, Remediation, Vulnerability,
};
use csaf_lib::csaf::getter_traits::RemediationTrait;
use csaf_lib::csaf::helpers::{find_duplicates, get_all_product_ids, resolve_product_groups};
use csaf_lib::csaf::id_set::IdSet;
use csaf_lib::csaf::product_helpers::{
    check_branch_depth_tree, gather_product_definitions, gather_product_references,
};
use csaf_lib::csaf::schema::{
    Branch, DocumentLevelMetaData, DocumentStatus, FullProductName, ProductGroup, ProductTree,
    Relationship, Tracking,
};
use csaf_lib::csaf::validation::{
    test_6_01_01_missing_definition_of_product_id, test_6_01_02_multiple_definition_of_product_id,
    test_6_01_34_branches_recursion_depth, test_6_01_35_contradicting_remediations,
    ValidationError,
};

fn metadata() -> DocumentLevelMetaData {
    DocumentLevelMetaData {
        tracking: Tracking { status: DocumentStatus::Draft, revision_history: vec![] },
    }
}

fn strings(ids: &[&str]) -> Vec<String> {
    ids.iter().map(|s| s.to_string()).collect()
}

fn name(id: &str) -> FullProductName {
    FullProductName { product_id: id.to_string() }
}

fn leaf(id: &str) -> Branch {
    Branch {
        category: "product_version".to_string(),
        name: id.to_string(),
        product: Some(name(id)),
        branches: vec![],
    }
}

fn node(children: Vec<Branch>) -> Branch {
    Branch { category: "vendor".to_string(), name: "n".to_string(), product: None, branches: children }
}

fn chain(depth: usize) -> Vec<Branch> {
    let mut branches: Vec<Branch> = vec![];
    for _ in 0..depth {
        branches = vec![node(branches)];
    }
    branches
}

fn group(id: &str, products: &[&str]) -> ProductGroup {
    ProductGroup { group_id: id.to_string(), product_ids: strings(products) }
}

fn relationship(from: &str, to: &str, defines: &str) -> Relationship {
    Relationship {
        product_reference: from.to_string(),
        relates_to_product_reference: to.to_string(),
        full_product_name: name(defines),
    }
}

fn empty_tree() -> ProductTree {
    ProductTree { branches: vec![], full_product_names: vec![], product_groups: vec![], relationships: vec![] }
}

fn remediation(
    category: CategoryOfTheRemediation,
    products: Option<&[&str]>,
    groups: Option<&[&str]>,
) -> Remediation {
    Remediation { category, product_ids: products.map(strings), group_ids: groups.map(strings) }
}

fn document(tree: Option<ProductTree>, remediations: Vec<Vec<Remediation>>) -> CommonSecurityAdvisoryFramework {
    CommonSecurityAdvisoryFramework {
        document: metadata(),
        product_tree: tree,
        vulnerabilities: remediations
            .into_iter()
            .map(|r| Vulnerability { metrics: None, remediations: r })
            .collect(),
    }
}

fn ids(set: &IdSet) -> Vec<String> {
    set.items().clone()
}

#[test]
fn definitions_are_gathered_in_document_order_with_repetitions() {
    let tree = ProductTree {
        branches: vec![
            node(vec![leaf("B1"), node(vec![leaf("B2")]), leaf("B1")]),
            Branch {
                category: "product_name".to_string(),
                name: "both".to_string(),
                product: Some(name("B3")),
                branches: vec![leaf("B4")],
            },
        ],
        full_product_names: vec![name("F1"), name("B2")],
        product_groups: vec![group("G", &["X"])],
        relationships: vec![relationship("B1", "B2", "R1"), relationship("B2", "B1", "R2")],
    };
    let doc = document(Some(tree), vec![]);
    assert_eq!(
        gather_product_definitions(&doc),
        strings(&["B1", "B2", "B1", "B3", "B4", "R1", "R2", "F1", "B2"])
    );
    assert!(gather_product_definitions(&document(None, vec![])).is_empty());
}

#[test]
fn references_are_gathered_from_remediations_groups_and_relationships() {
    let tree = ProductTree {
        branches: vec![leaf("D")],
        full_product_names: vec![],
        product_groups: vec![group("CSAFGID-1", &["CSAFPID-2", "CSAFPID-1"]), group("CSAFGID-2", &["CSAFPID-9"])],
        relationships: vec![relationship("R-from", "R-to", "R-new")],
    };
    let doc = document(
        Some(tree),
        vec![
            vec![
                remediation(CategoryOfTheRemediation::Workaround, Some(&["CSAFPID-3", "CSAFPID-1"]), None),
                remediation(CategoryOfTheRemediation::Workaround, None, Some(&["CSAFGID-1"])),
            ],
            vec![remediation(CategoryOfTheRemediation::VendorFix, Some(&["CSAFPID-0"]), None)],
        ],
    );
    assert_eq!(
        ids(&gather_product_references(&doc)),
        strings(&["CSAFPID-0", "CSAFPID-1", "CSAFPID-2", "CSAFPID-3", "CSAFPID-9", "R-from", "R-to"])
    );
    let bare = document(
        None,
        vec![vec![remediation(CategoryOfTheRemediation::Workaround, Some(&["b", "a", "b"]), Some(&["CSAFGID-1"]))]],
    );
    assert_eq!(ids(&gather_product_references(&bare)), strings(&["a", "b"]));
}

#[test]
fn groups_are_resolved_to_their_products() {
    let tree = ProductTree {
        product_groups: vec![
            group("CSAFGID-1", &["CSAFPID-1", "CSAFPID-2"]),
            group("CSAFGID-2", &["CSAFPID-3"]),
            group("CSAFGID-3", &["CSAFPID-2", "CSAFPID-4"]),
        ],
        ..empty_tree()
    };
    let doc = document(Some(tree), vec![]);
    let resolved = resolve_product_groups(&doc, &strings(&["CSAFGID-3", "unknown", "CSAFGID-1"])).unwrap();
    assert_eq!(ids(&resolved), strings(&["CSAFPID-1", "CSAFPID-2", "CSAFPID-4"]));
    let none = resolve_product_groups(&doc, &strings(&["unknown"])).unwrap();
    assert!(none.is_empty());
    assert!(resolve_product_groups(&document(None, vec![]), &strings(&["CSAFGID-1"])).is_none());
}

#[test]
fn all_product_ids_of_a_remediation() {
    let tree = ProductTree { product_groups: vec![group("CSAFGID-1", &["CSAFPID-1", "CSAFPID-2"])], ..empty_tree() };
    let doc = document(Some(tree), vec![]);
    let neither = remediation(CategoryOfTheRemediation::Mitigation, None, None);
    assert!(get_all_product_ids(&neither, &doc).is_none());
    let direct = remediation(CategoryOfTheRemediation::Mitigation, Some(&["CSAFPID-9", "CSAFPID-1"]), None);
    assert_eq!(ids(&get_all_product_ids(&direct, &doc).unwrap()), strings(&["CSAFPID-1", "CSAFPID-9"]));
    let grouped = remediation(CategoryOfTheRemediation::Mitigation, None, Some(&["CSAFGID-1", "CSAFGID-7"]));
    assert_eq!(ids(&get_all_product_ids(&grouped, &doc).unwrap()), strings(&["CSAFPID-1", "CSAFPID-2"]));
    let both = remediation(CategoryOfTheRemediation::Mitigation, Some(&["CSAFPID-3"]), Some(&["CSAFGID-1"]));
    assert_eq!(ids(&get_all_product_ids(&both, &doc).unwrap()), strings(&["CSAFPID-1", "CSAFPID-2", "CSAFPID-3"]));
    let empty = remediation(CategoryOfTheRemediation::Mitigation, Some(&[]), None);
    assert!(get_all_product_ids(&empty, &doc).unwrap().is_empty());
    let without_tree = document(None, vec![]);
    assert_eq!(ids(&get_all_product_ids(&both, &without_tree).unwrap()), strings(&["CSAFPID-3"]));
}

#[test]
fn duplicates_are_the_values_that_occur_more_than_once() {
    assert!(find_duplicates(&strings(&[])).is_empty());
    assert!(find_duplicates(&strings(&["a", "b", "c"])).is_empty());
    assert_eq!(
        ids(&find_duplicates(&strings(&["b", "a", "b", "c", "a", "b"]))),
        strings(&["a", "b"])
    );
}

#[test]
fn id_set_is_sorted_and_holds_each_id_once() {
    let mut set = IdSet::new();
    assert!(set.is_empty());
    for id in ["pear", "apple", "fig", "apple", "Zebra", "figs", ""] {
        set = set.insert(id.to_string());
    }
    assert_eq!(ids(&set), strings(&["", "Zebra", "apple", "fig", "figs", "pear"]));
    assert_eq!(set.len(), 6);
    assert!(set.contains(&"fig".to_string()));
    assert!(!set.contains(&"fi".to_string()));
    let rest = set.without(&strings(&["fig", "", "none"]));
    assert_eq!(ids(&rest), strings(&["Zebra", "apple", "figs", "pear"]));
    let more = rest.extend(&strings(&["b", "a", "apple"]));
    assert_eq!(ids(&more), strings(&["Zebra", "a", "apple", "b", "figs", "pear"]));
}

#[test]
fn missing_definitions_are_listed_in_lexicographic_order() {
    let tree = ProductTree {
        branches: vec![leaf("CSAFPID-2")],
        product_groups: vec![group("CSAFGID-1", &["CSAFPID-4", "CSAFPID-2"])],
        relationships: vec![relationship("CSAFPID-9", "CSAFPID-10", "CSAFPID-2-on-CSAFPID-9")],
        ..empty_tree()
    };
    let doc = document(
        Some(tree),
        vec![vec![remediation(CategoryOfTheRemediation::VendorFix, Some(&["b", "CSAFPID-2", "a", "B"]), None)]],
    );
    assert_eq!(
        test_6_01_01_missing_definition_of_product_id(&doc),
        Err(ValidationError {
            message: "Missing definitions: [\"B\", \"CSAFPID-10\", \"CSAFPID-4\", \"CSAFPID-9\", \"a\", \"b\"]"
                .to_string(),
            instance_path: "/product_tree".to_string(),
        })
    );
}

#[test]
fn missing_definition_is_written_as_a_quoted_string() {
    let doc = document(
        None,
        vec![vec![remediation(CategoryOfTheRemediation::VendorFix, Some(&["say \"hi\"\n"]), None)]],
    );
    assert_eq!(
        test_6_01_01_missing_definition_of_product_id(&doc),
        Err(ValidationError {
            message: "Missing definitions: [\"say \\\"hi\\\"\\n\"]".to_string(),
            instance_path: "/product_tree".to_string(),
        })
    );
}

#[test]
fn document_whose_references_are_all_defined_passes() {
    let tree = ProductTree {
        branches: vec![node(vec![leaf("CSAFPID-1"), leaf("CSAFPID-2")])],
        full_product_names: vec![name("CSAFPID-3")],
        product_groups: vec![group("CSAFGID-1", &["CSAFPID-1", "CSAFPID-3"])],
        relationships: vec![relationship("CSAFPID-1", "CSAFPID-2", "CSAFPID-4")],
    };
    let doc = document(
        Some(tree),
        vec![vec![remediation(CategoryOfTheRemediation::VendorFix, Some(&["CSAFPID-4", "CSAFPID-1"]), Some(&["CSAFGID-1"]))]],
    );
    assert_eq!(test_6_01_01_missing_definition_of_product_id(&doc), Ok(()));
    assert_eq!(test_6_01_02_multiple_definition_of_product_id(&doc), Ok(()));
    assert_eq!(test_6_01_01_missing_definition_of_product_id(&document(None, vec![])), Ok(()));
}

#[test]
fn multiple_definitions_are_listed() {
    let tree = ProductTree {
        branches: vec![node(vec![leaf("CSAFPID-2"), leaf("CSAFPID-1")]), leaf("CSAFPID-2")],
        full_product_names: vec![name("CSAFPID-1"), name("CSAFPID-3")],
        relationships: vec![relationship("CSAFPID-1", "CSAFPID-2", "CSAFPID-2")],
        ..empty_tree()
    };
    let doc = document(Some(tree), vec![]);
    assert_eq!(
        test_6_01_02_multiple_definition_of_product_id(&doc),
        Err(ValidationError {
            message: "Duplicate definitions: {\"CSAFPID-1\", \"CSAFPID-2\"}".to_string(),
            instance_path: "/product_tree".to_string(),
        })
    );
}

#[test]
fn branch_depth_counts_nested_branches() {
    let tree = |branches| ProductTree { branches, ..empty_tree() };
    assert!(check_branch_depth_tree(&tree(vec![]), 0));
    assert!(!check_branch_depth_tree(&tree(chain(1)), 0));
    assert!(check_branch_depth_tree(&tree(chain(1)), 1));
    assert!(check_branch_depth_tree(&tree(chain(3)), 3));
    assert!(!check_branch_depth_tree(&tree(chain(4)), 3));
    // A product at a branch is no further level.
    assert!(check_branch_depth_tree(&tree(vec![node(vec![leaf("P")])]), 2));
    // The deepest of several branches decides.
    let mut wide = chain(2);
    wide.extend(chain(5));
    wide.extend(chain(1));
    assert!(check_branch_depth_tree(&tree(wide), 5));
    let mut wide = chain(2);
    wide.extend(chain(5));
    wide.extend(chain(1));
    assert!(!check_branch_depth_tree(&tree(wide), 4));
}

#[test]
fn thirty_nested_branches_pass_and_thirty_one_fail() {
    let doc = |depth| document(Some(ProductTree { branches: chain(depth), ..empty_tree() }), vec![]);
    assert_eq!(test_6_01_34_branches_recursion_depth(&doc(0)), Ok(()));
    assert_eq!(test_6_01_34_branches_recursion_depth(&doc(30)), Ok(()));
    assert_eq!(
        test_6_01_34_branches_recursion_depth(&doc(31)),
        Err(ValidationError {
            message: "Branches recursion depth too big (> 30)".to_string(),
            instance_path: "/product_tree/branches".to_string(),
        })
    );
    assert!(test_6_01_34_branches_recursion_depth(&doc(200)).is_err());
    assert_eq!(test_6_01_34_branches_recursion_depth(&document(None, vec![])), Ok(()));
}

#[test]
fn contradicting_remediations() {
    let doc = document(
        None,
        vec![vec![
            remediation(CategoryOfTheRemediation::Workaround, Some(&["P"]), None),
            remediation(CategoryOfTheRemediation::Mitigation, Some(&["P"]), None),
        ]],
    );
    assert_eq!(
        test_6_01_35_contradicting_remediations(&doc),
        Err(ValidationError {
            message: "Product P has contradicting remediations: workaround and mitigation"
                .to_string(),
            instance_path: "/vulnerabilities/0/remediations/1".to_string(),
        })
    );
}

#[test]
fn group_expansion() {
    let tree = ProductTree {
        product_groups: vec![group("CSAFGID-1", &["CSAFPID-1", "CSAFPID-2"])],
        ..empty_tree()
    };
    let doc = document(
        Some(tree),
        vec![vec![
            remediation(CategoryOfTheRemediation::VendorFix, None, Some(&["CSAFGID-1"])),
            remediation(CategoryOfTheRemediation::NoFixPlanned, Some(&["CSAFPID-1"]), None),
        ]],
    );
    assert_eq!(
        test_6_01_35_contradicting_remediations(&doc),
        Err(ValidationError {
            message:
                "Product CSAFPID-1 has contradicting remediations: vendor_fix and no_fix_planned"
                    .to_string(),
            instance_path: "/vulnerabilities/0/remediations/1".to_string(),
        })
    );
}

#[test]
fn group_members_meet_later_remediations() {
    let tree = ProductTree {
        product_groups: vec![group("CSAFGID-1", &["CSAFPID-1", "CSAFPID-2"])],
        ..empty_tree()
    };
    let doc = document(
        Some(tree),
        vec![
            vec![],
            vec![
                remediation(CategoryOfTheRemediation::VendorFix, None, Some(&["CSAFGID-1"])),
                remediation(CategoryOfTheRemediation::Workaround, Some(&["CSAFPID-2"]), None),
                remediation(CategoryOfTheRemediation::Mitigation, None, Some(&["CSAFGID-1"])),
            ],
        ],
    );
    assert_eq!(
        test_6_01_35_contradicting_remediations(&doc),
        Err(ValidationError {
            message:
                "Product CSAFPID-2 has contradicting remediations: vendor_fix, workaround and mitigation"
                    .to_string(),
            instance_path: "/vulnerabilities/1/remediations/2".to_string(),
        })
    );
}

#[test]
fn none_available_contradicts_itself_and_all_earlier_categories_are_named() {
    let doc = document(
        None,
        vec![vec![
            remediation(CategoryOfTheRemediation::VendorFix, Some(&["Q", "P"]), None),
            remediation(CategoryOfTheRemediation::Workaround, Some(&["P"]), None),
            remediation(CategoryOfTheRemediation::NoFixAvailable, Some(&["P"]), None),
            remediation(CategoryOfTheRemediation::NoneAvailable, Some(&["Q", "P"]), None),
        ]],
    );
    assert_eq!(
        test_6_01_35_contradicting_remediations(&doc),
        Err(ValidationError {
            message: "Product P has contradicting remediations: vendor_fix, workaround, no_fix_available and none_available"
                .to_string(),
            instance_path: "/vulnerabilities/0/remediations/3".to_string(),
        })
    );
    let twice = document(
        None,
        vec![vec![
            remediation(CategoryOfTheRemediation::NoneAvailable, Some(&["P"]), None),
            remediation(CategoryOfTheRemediation::NoneAvailable, Some(&["P"]), None),
        ]],
    );
    assert_eq!(
        test_6_01_35_contradicting_remediations(&twice),
        Err(ValidationError {
            message: "Product P has contradicting remediations: none_available and none_available"
                .to_string(),
            instance_path: "/vulnerabilities/0/remediations/1".to_string(),
        })
    );
}

#[test]
fn remediations_that_do_not_contradict_pass() {
    let doc = document(
        None,
        vec![
            vec![
                remediation(CategoryOfTheRemediation::Workaround, Some(&["P"]), None),
                remediation(CategoryOfTheRemediation::VendorFix, Some(&["P"]), None),
                remediation(CategoryOfTheRemediation::NoFixAvailable, Some(&["P"]), None),
                remediation(CategoryOfTheRemediation::NoFixAvailable, Some(&["P"]), None),
                remediation(CategoryOfTheRemediation::Mitigation, Some(&["Q"]), None),
                remediation(CategoryOfTheRemediation::Mitigation, None, None),
                remediation(CategoryOfTheRemediation::Mitigation, None, Some(&["G"])),
            ],
            // Another vulnerability starts anew.
            vec![remediation(CategoryOfTheRemediation::Mitigation, Some(&["P"]), None)],
        ],
    );
    assert_eq!(test_6_01_35_contradicting_remediations(&doc), Ok(()));
}

#[test]
fn every_pair_of_measures_and_every_pair_of_fix_states_contradicts() {
    let all = [
        CategoryOfTheRemediation::FixPlanned,
        CategoryOfTheRemediation::Mitigation,
        CategoryOfTheRemediation::NoFixAvailable,
        CategoryOfTheRemediation::NoFixPlanned,
        CategoryOfTheRemediation::NoneAvailable,
        CategoryOfTheRemediation::OptionalPatch,
        CategoryOfTheRemediation::VendorFix,
        CategoryOfTheRemediation::Workaround,
    ];
    let measures = [
        CategoryOfTheRemediation::NoneAvailable,
        CategoryOfTheRemediation::Workaround,
        CategoryOfTheRemediation::Mitigation,
    ];
    let fix_states = [
        CategoryOfTheRemediation::NoneAvailable,
        CategoryOfTheRemediation::NoFixPlanned,
        CategoryOfTheRemediation::FixPlanned,
        CategoryOfTheRemediation::OptionalPatch,
        CategoryOfTheRemediation::VendorFix,
    ];
    for a in all {
        assert_eq!(a.in_measures(), measures.contains(&a));
        assert_eq!(a.in_fix_states(), fix_states.contains(&a));
        for b in all {
            let expected = (measures.contains(&a) && measures.contains(&b))
                || (fix_states.contains(&a) && fix_states.contains(&b));
            assert_eq!(a.is_contradicted_by(&b), expected);
            let doc = document(
                None,
                vec![vec![remediation(a, Some(&["P"]), None), remediation(b, Some(&["P"]), None)]],
            );
            assert_eq!(test_6_01_35_contradicting_remediations(&doc).is_err(), expected);
        }
    }
}

#[test]
fn categories_of_revision_2_0_are_projected_by_name() {
    let pairs = [
        (Category20::Mitigation, CategoryOfTheRemediation::Mitigation, "mitigation"),
        (Category20::NoFixPlanned, CategoryOfTheRemediation::NoFixPlanned, "no_fix_planned"),
        (Category20::NoneAvailable, CategoryOfTheRemediation::NoneAvailable, "none_available"),
        (Category20::VendorFix, CategoryOfTheRemediation::VendorFix, "vendor_fix"),
        (Category20::Workaround, CategoryOfTheRemediation::Workaround, "workaround"),
    ];
    for (old, unified, name) in pairs {
        let r = Remediation20 { category: old, product_ids: None, group_ids: None };
        assert_eq!(r.get_category(), unified);
        assert_eq!(old.as_str(), name);
        assert_eq!(unified.to_string(), name);
        assert_eq!(unified.as_str(), name);
    }
    assert_eq!(CategoryOfTheRemediation::FixPlanned.to_string(), "fix_planned");
    assert_eq!(CategoryOfTheRemediation::OptionalPatch.to_string(), "optional_patch");
    assert_eq!(CategoryOfTheRemediation::NoFixAvailable.to_string(), "no_fix_available");
}

#[test]
fn equivalent_documents_of_both_revisions_have_the_same_findings() {
    let tree = || ProductTree {
        branches: vec![node(vec![leaf("CSAFPID-1"), leaf("CSAFPID-1")])],
        full_product_names: vec![],
        product_groups: vec![group("CSAFGID-1", &["CSAFPID-1", "CSAFPID-2"])],
        relationships: vec![relationship("CSAFPID-1", "CSAFPID-3", "R1"), relationship("CSAFPID-3", "CSAFPID-1", "R2")],
    };
    let old = Csaf20 {
        document: metadata(),
        product_tree: Some(tree()),
        vulnerabilities: vec![Vulnerability20 {
            remediations: vec![
                Remediation20 {
                    category: Category20::Workaround,
                    product_ids: None,
                    group_ids: Some(strings(&["CSAFGID-1"])),
                },
                Remediation20 {
                    category: Category20::Mitigation,
                    product_ids: Some(strings(&["CSAFPID-2"])),
                    group_ids: None,
                },
            ],
        }],
    };
    let new = document(
        Some(tree()),
        vec![vec![
            remediation(CategoryOfTheRemediation::Workaround, None, Some(&["CSAFGID-1"])),
            remediation(CategoryOfTheRemediation::Mitigation, Some(&["CSAFPID-2"]), None),
        ]],
    );
    assert_eq!(
        test_6_01_01_missing_definition_of_product_id(&old),
        test_6_01_01_missing_definition_of_product_id(&new)
    );
    assert!(test_6_01_01_missing_definition_of_product_id(&old).is_err());
    assert_eq!(
        test_6_01_02_multiple_definition_of_product_id(&old),
        test_6_01_02_multiple_definition_of_product_id(&new)
    );
    assert!(test_6_01_02_multiple_definition_of_product_id(&old).is_err());
    assert_eq!(
        test_6_01_34_branches_recursion_depth(&old),
        test_6_01_34_branches_recursion_depth(&new)
    );
    assert_eq!(
        test_6_01_35_contradicting_remediations(&old),
        test_6_01_35_contradicting_remediations(&new)
    );
    assert_eq!(
        test_6_01_35_contradicting_remediations(&old),
        Err(ValidationError {
            message: "Product CSAFPID-2 has contradicting remediations: workaround and mitigation"
                .to_string(),
            instance_path: "/vulnerabilities/0/remediations/1".to_string(),
        })
    );
}
