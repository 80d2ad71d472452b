use csaf_lib::csaf::csaf2_0::schema::CommonSecurityAdvisoryFramework as Csaf20;
use csaf_lib::csaf::csaf2_1::schema::{
    CategoryOfTheRemediation, CommonSecurityAdvisoryFramework, Remediation, Vulnerability,
};
use csaf_lib::csaf::schema::{
    Branch, Content, DocumentLevelMetaData, DocumentStatus, FullProductName, Metric, ProductTree,
    Relationship, Revision, Tracking,
};
use csaf_lib::csaf::validation::{
    validate_by_preset, validate_by_test, Test, TestReport, TestResult, Validatable, Validate,
    ValidationError, ValidationPreset,
};

fn metadata(status: DocumentStatus, dates: &[&str]) -> DocumentLevelMetaData {
    DocumentLevelMetaData {
        tracking: Tracking {
            status,
            revision_history: dates
                .iter()
                .map(|d| Revision {
                    date: d.to_string(),
                    number: "1".to_string(),
                    summary: "test".to_string(),
                })
                .collect(),
        },
    }
}

fn failing_document() -> CommonSecurityAdvisoryFramework {
    CommonSecurityAdvisoryFramework {
        document: metadata(DocumentStatus::Final, &[]),
        product_tree: Some(ProductTree {
            branches: vec![Branch {
                category: "product_name".to_string(),
                name: "one".to_string(),
                product: Some(FullProductName { product_id: "CSAFPID-1".to_string() }),
                branches: vec![],
            }],
            full_product_names: vec![FullProductName { product_id: "CSAFPID-1".to_string() }],
            product_groups: vec![],
            relationships: vec![
                Relationship {
                    product_reference: "CSAFPID-1".to_string(),
                    relates_to_product_reference: "CSAFPID-2".to_string(),
                    full_product_name: FullProductName { product_id: "CSAFPID-3".to_string() },
                },
                Relationship {
                    product_reference: "CSAFPID-2".to_string(),
                    relates_to_product_reference: "CSAFPID-1".to_string(),
                    full_product_name: FullProductName { product_id: "CSAFPID-4".to_string() },
                },
            ],
        }),
        vulnerabilities: vec![Vulnerability {
            metrics: Some(vec![Metric {
                content: Content { ssvc_v1: Some(Err("missing field `selections`".to_string())) },
            }]),
            remediations: vec![
                Remediation {
                    category: CategoryOfTheRemediation::FixPlanned,
                    product_ids: Some(vec!["CSAFPID-1".to_string()]),
                    group_ids: None,
                },
                Remediation {
                    category: CategoryOfTheRemediation::OptionalPatch,
                    product_ids: Some(vec!["CSAFPID-1".to_string()]),
                    group_ids: None,
                },
            ],
        }],
    }
}

fn passing_document() -> Csaf20 {
    Csaf20 { document: metadata(DocumentStatus::Final, &[]), product_tree: None, vulnerabilities: vec![] }
}

fn failure(message: &str, instance_path: &str) -> TestResult {
    TestResult::Failure(ValidationError {
        message: message.to_string(),
        instance_path: instance_path.to_string(),
    })
}

fn report(test_id: &str, result: TestResult) -> TestReport {
    TestReport { test_id: test_id.to_string(), result }
}

#[test]
fn preset_names() {
    assert_eq!(ValidationPreset::from_str("basic"), Ok(ValidationPreset::Basic));
    assert_eq!(ValidationPreset::from_str("extended"), Ok(ValidationPreset::Extended));
    assert_eq!(ValidationPreset::from_str("full"), Ok(ValidationPreset::Full));
    assert_eq!(ValidationPreset::from_str("Full"), Err(()));
    assert_eq!(ValidationPreset::from_str(""), Err(()));
    assert_eq!(ValidationPreset::from_str("fulll"), Err(()));
}

#[test]
fn test_identifiers() {
    let all = [
        (Test::MissingDefinitionOfProductId, "6.1.01"),
        (Test::MultipleDefinitionOfProductId, "6.1.02"),
        (Test::CircularDefinitionOfProductId, "6.1.03"),
        (Test::BranchesRecursionDepth, "6.1.34"),
        (Test::ContradictingRemediations, "6.1.35"),
        (Test::InvalidSsvc, "6.1.46"),
        (Test::InconsistentSsvcTimestamp, "6.1.49"),
    ];
    for (test, id) in all {
        assert_eq!(test.id(), id);
        assert_eq!(Test::from_id(id), Some(test));
    }
    assert_eq!(Test::from_id("6.1.4"), None);
    assert_eq!(Test::from_id("6.1.011"), None);
    assert_eq!(Test::from_id(""), None);
}

#[test]
fn full_preset_runs_every_registered_test_in_order() {
    let doc = failing_document();
    let reports = validate_by_preset(&doc, ValidationPreset::Full);
    assert_eq!(
        reports,
        vec![
            report("6.1.01", failure("Missing definitions: [\"CSAFPID-2\"]", "/product_tree")),
            report("6.1.02", failure("Duplicate definitions: {\"CSAFPID-1\"}", "/product_tree")),
            report(
                "6.1.03",
                failure(
                    "Found product relationship cycle: CSAFPID-1 -> CSAFPID-2 -> CSAFPID-1",
                    "/product_tree/relationships/0"
                )
            ),
            report("6.1.34", TestResult::Success),
            report(
                "6.1.35",
                failure(
                    "Product CSAFPID-1 has contradicting remediations: fix_planned and optional_patch",
                    "/vulnerabilities/0/remediations/1"
                )
            ),
            report(
                "6.1.46",
                failure(
                    "Invalid SSVC object: missing field `selections`",
                    "/vulnerabilities/0/metrics/0/content/ssvc_v1"
                )
            ),
            report(
                "6.1.49",
                failure(
                    "Revision history must not be empty for status final or interim",
                    "/document/tracking/revision_history"
                )
            ),
        ]
    );
}

#[test]
fn running_a_preset_twice_gives_the_same_findings() {
    let doc = failing_document();
    for preset in [ValidationPreset::Basic, ValidationPreset::Extended, ValidationPreset::Full] {
        let first = validate_by_preset(&doc, preset);
        let second = validate_by_preset(&doc, preset);
        assert_eq!(first, second);
        assert_eq!(doc.validate_preset(preset), first);
    }
}

#[test]
fn every_registered_test_is_in_the_full_preset() {
    let new = failing_document();
    let old = passing_document();
    for id in ["6.1.01", "6.1.02", "6.1.03", "6.1.34", "6.1.35", "6.1.46", "6.1.49", "6.1.50"] {
        if new.tests(id).is_some() {
            assert!(new.presets(ValidationPreset::Full).contains(&id.to_string()));
        }
        if old.tests(id).is_some() {
            assert!(old.presets(ValidationPreset::Full).contains(&id.to_string()));
        }
    }
    assert_eq!(new.presets(ValidationPreset::Full).len(), 7);
    assert_eq!(old.presets(ValidationPreset::Full).len(), 5);
}

#[test]
fn revision_2_0_registers_no_test_on_metrics() {
    let doc = passing_document();
    assert_eq!(
        validate_by_preset(&doc, ValidationPreset::Basic),
        vec![
            report("6.1.01", TestResult::Success),
            report("6.1.02", TestResult::Success),
            report("6.1.03", TestResult::Success),
            report("6.1.34", TestResult::Success),
            report("6.1.35", TestResult::Success),
        ]
    );
    assert_eq!(validate_by_test(&doc, "6.1.46"), TestResult::NotFound);
    assert_eq!(validate_by_test(&doc, "6.1.49"), TestResult::NotFound);
    assert_eq!(doc.validate_by_test("6.1.49"), TestResult::NotFound);
    assert_eq!(doc.validate_by_test("6.1.35"), TestResult::Success);
}

#[test]
fn test_that_is_not_registered_is_not_found() {
    let doc = failing_document();
    assert_eq!(validate_by_test(&doc, "6.1.04"), TestResult::NotFound);
    assert_eq!(validate_by_test(&doc, "6.1.1"), TestResult::NotFound);
    assert_eq!(validate_by_test(&doc, ""), TestResult::NotFound);
    assert_eq!(doc.validate_by_test("nothing"), TestResult::NotFound);
}

#[test]
fn reports_stand_for_findings() {
    assert_eq!(report("6.1.34", TestResult::Success).finding(), None);
    assert_eq!(
        report("6.1.02", failure("Duplicate definitions: {\"a\"}", "/product_tree")).finding(),
        Some(ValidationError {
            message: "Duplicate definitions: {\"a\"}".to_string(),
            instance_path: "/product_tree".to_string(),
        })
    );
    assert_eq!(
        report("6.1.99", TestResult::NotFound).finding(),
        Some(ValidationError {
            message: "Test with ID 6.1.99 is missing implementation".to_string(),
            instance_path: "".to_string(),
        })
    );
}

#[test]
fn single_test_by_identifier() {
    let doc = failing_document();
    assert_eq!(validate_by_test(&doc, "6.1.34"), TestResult::Success);
    assert_eq!(
        validate_by_test(&doc, "6.1.02"),
        failure("Duplicate definitions: {\"CSAFPID-1\"}", "/product_tree")
    );
    assert_eq!(doc.validate_by_test("6.1.02"), validate_by_test(&doc, "6.1.02"));
    assert_eq!(
        Test::MultipleDefinitionOfProductId.run(&doc),
        Err(ValidationError {
            message: "Duplicate definitions: {\"CSAFPID-1\"}".to_string(),
            instance_path: "/product_tree".to_string(),
        })
    );
}
