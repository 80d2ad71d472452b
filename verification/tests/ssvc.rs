use csaf_lib::csaf::csaf2_0::schema::{
    CommonSecurityAdvisoryFramework as Csaf20, Vulnerability as Vulnerability20,
};
use csaf_lib::csaf::csaf2_1::schema::{CommonSecurityAdvisoryFramework, Vulnerability};
use csaf_lib::csaf::schema::{
    Content, DocumentLevelMetaData, DocumentStatus, Metric, Revision, SsvcV1, Tracking,
};
use csaf_lib::csaf::timestamp::Timestamp;
use csaf_lib::csaf::validation::ValidationError;
use csaf_lib::csaf::validations::test_6_1_46::test_6_1_46_invalid_ssvc;
use csaf_lib::csaf::validations::test_6_1_49::test_6_1_49_inconsistent_ssvc_timestamp;

fn revision(date: &str, number: &str) -> Revision {
    Revision { date: date.to_string(), number: number.to_string(), summary: "test".to_string() }
}

fn metadata(status: DocumentStatus, dates: &[&str]) -> DocumentLevelMetaData {
    DocumentLevelMetaData {
        tracking: Tracking {
            status,
            revision_history: dates.iter().map(|d| revision(d, "1")).collect(),
        },
    }
}

/// A timestamp as the interpretation of an SSVC object gives it: normalized to UTC.
fn utc(text: &str) -> Timestamp {
    let read = Timestamp::parse_from_rfc3339(text).unwrap();
    Timestamp::from_parts(read.seconds(), read.nanos(), 0).unwrap()
}

fn valid(timestamp: &str) -> Metric {
    Metric { content: Content { ssvc_v1: Some(Ok(SsvcV1 { timestamp: utc(timestamp) })) } }
}

fn invalid(diagnostic: &str) -> Metric {
    Metric { content: Content { ssvc_v1: Some(Err(diagnostic.to_string())) } }
}

fn without_ssvc() -> Metric {
    Metric { content: Content { ssvc_v1: None } }
}

fn document(
    status: DocumentStatus,
    dates: &[&str],
    metrics: Vec<Option<Vec<Metric>>>,
) -> CommonSecurityAdvisoryFramework {
    CommonSecurityAdvisoryFramework {
        document: metadata(status, dates),
        product_tree: None,
        vulnerabilities: metrics
            .into_iter()
            .map(|m| Vulnerability { metrics: m, remediations: vec![] })
            .collect(),
    }
}

#[test]
fn test_test_6_1_46() {
    let doc01 = document(
        DocumentStatus::Final,
        &["2024-01-24T10:00:00.000Z"],
        vec![Some(vec![invalid("missing field `selections`")])],
    );
    assert_eq!(
        test_6_1_46_invalid_ssvc(&doc01),
        Err(ValidationError {
            message: "Invalid SSVC object: missing field `selections`".to_string(),
            instance_path: "/vulnerabilities/0/metrics/0/content/ssvc_v1".to_string(),
        })
    );
    let doc02 = document(
        DocumentStatus::Final,
        &["2024-01-24T10:00:00.000Z"],
        vec![Some(vec![invalid(
            "unknown field `value`, expected one of `name`, `namespace`, `values`, `version`",
        )])],
    );
    assert_eq!(
        test_6_1_46_invalid_ssvc(&doc02),
        Err(ValidationError {
            message: "Invalid SSVC object: unknown field `value`, expected one of `name`, `namespace`, `values`, `version`".to_string(),
            instance_path: "/vulnerabilities/0/metrics/0/content/ssvc_v1".to_string(),
        })
    );
}

#[test]
fn test_test_6_1_49() {
    let instance_path = "/vulnerabilities/0/metrics/0/content/ssvc_v1/timestamp".to_string();

    let doc01 = document(
        DocumentStatus::Final,
        &["2024-01-24T10:00:00.000Z"],
        vec![Some(vec![valid("2024-07-13T10:00:00.000Z")])],
    );
    assert_eq!(
        test_6_1_49_inconsistent_ssvc_timestamp(&doc01),
        Err(ValidationError {
            message: "SSVC timestamp (2024-07-13T10:00:00+00:00) for vulnerability at index 0 is later than the newest revision date (2024-01-24T10:00:00+00:00)".to_string(),
            instance_path: instance_path.clone(),
        })
    );
    let doc02 = document(
        DocumentStatus::Interim,
        &["2024-01-24T10:00:00.000Z", "2024-02-29T10:00:00.000Z"],
        vec![Some(vec![valid("2024-02-29T10:30:00.000Z")])],
    );
    assert_eq!(
        test_6_1_49_inconsistent_ssvc_timestamp(&doc02),
        Err(ValidationError {
            message: "SSVC timestamp (2024-02-29T10:30:00+00:00) for vulnerability at index 0 is later than the newest revision date (2024-02-29T10:00:00+00:00)".to_string(),
            instance_path: instance_path.clone(),
        })
    );
    let doc03 = document(
        DocumentStatus::Final,
        &["2024-02-29T10:00:00.000Z", "2024-01-24T10:00:00.000Z"],
        vec![Some(vec![valid("2024-02-29T14:30:00.000+04:00")])],
    );
    assert_eq!(
        test_6_1_49_inconsistent_ssvc_timestamp(&doc03),
        Err(ValidationError {
            message: "SSVC timestamp (2024-02-29T10:30:00+00:00) for vulnerability at index 0 is later than the newest revision date (2024-02-29T10:00:00+00:00)".to_string(),
            instance_path: instance_path.clone(),
        })
    );
}

#[test]
fn missing_ssvc_field() {
    let doc = document(
        DocumentStatus::Draft,
        &[],
        vec![Some(vec![invalid("missing field `selections`")])],
    );
    assert_eq!(
        test_6_1_46_invalid_ssvc(&doc),
        Err(ValidationError {
            message: "Invalid SSVC object: missing field `selections`".to_string(),
            instance_path: "/vulnerabilities/0/metrics/0/content/ssvc_v1".to_string(),
        })
    );
}

#[test]
fn first_invalid_ssvc_object_in_document_order_is_reported() {
    let doc = document(
        DocumentStatus::Draft,
        &[],
        vec![
            None,
            Some(vec![]),
            Some(vec![without_ssvc(), valid("2024-01-01T00:00:00Z")]),
            Some(vec![
                without_ssvc(),
                valid("2024-01-01T00:00:00Z"),
                invalid("first"),
                invalid("second"),
            ]),
            Some(vec![invalid("third")]),
        ],
    );
    assert_eq!(
        test_6_1_46_invalid_ssvc(&doc),
        Err(ValidationError {
            message: "Invalid SSVC object: first".to_string(),
            instance_path: "/vulnerabilities/3/metrics/2/content/ssvc_v1".to_string(),
        })
    );
}

#[test]
fn absent_ssvc_is_no_error() {
    let doc = document(
        DocumentStatus::Final,
        &["2024-01-24T10:00:00Z"],
        vec![None, Some(vec![without_ssvc()])],
    );
    assert_eq!(test_6_1_46_invalid_ssvc(&doc), Ok(()));
    assert_eq!(test_6_1_49_inconsistent_ssvc_timestamp(&doc), Ok(()));
}

#[test]
fn documents_of_revision_2_0_have_no_ssvc_objects() {
    let doc = Csaf20 {
        document: metadata(DocumentStatus::Final, &["2024-01-24T10:00:00Z"]),
        product_tree: None,
        vulnerabilities: vec![Vulnerability20 { remediations: vec![] }],
    };
    assert_eq!(test_6_1_46_invalid_ssvc(&doc), Ok(()));
    assert_eq!(test_6_1_49_inconsistent_ssvc_timestamp(&doc), Ok(()));
}

#[test]
fn ssvc_timestamp_after_newest_revision() {
    let doc = document(
        DocumentStatus::Final,
        &["2024-01-24T10:00:00+00:00"],
        vec![Some(vec![valid("2024-07-13T10:00:00+00:00")])],
    );
    let finding = test_6_1_49_inconsistent_ssvc_timestamp(&doc).unwrap_err();
    assert!(finding.message.contains("2024-07-13T10:00:00+00:00"));
    assert!(finding.message.contains("2024-01-24T10:00:00+00:00"));
    assert_eq!(finding.instance_path, "/vulnerabilities/0/metrics/0/content/ssvc_v1/timestamp");
}

#[test]
fn draft_is_not_tested_for_timestamps() {
    let doc = document(
        DocumentStatus::Draft,
        &["not a date"],
        vec![Some(vec![valid("2999-01-01T00:00:00Z"), invalid("broken")])],
    );
    assert_eq!(test_6_1_49_inconsistent_ssvc_timestamp(&doc), Ok(()));
}

#[test]
fn revision_date_that_is_no_date_fails() {
    let doc = document(
        DocumentStatus::Final,
        &["2024-01-24T10:00:00Z", "2024-02-30T10:00:00Z", "also bad"],
        vec![],
    );
    assert_eq!(
        test_6_1_49_inconsistent_ssvc_timestamp(&doc),
        Err(ValidationError {
            message: "Invalid date format in revision history: 2024-02-30T10:00:00Z".to_string(),
            instance_path: "/document/tracking/revision_history/1/date".to_string(),
        })
    );
}

#[test]
fn empty_revision_history_fails_for_final_and_interim() {
    for status in [DocumentStatus::Final, DocumentStatus::Interim] {
        let doc = document(status, &[], vec![]);
        assert_eq!(
            test_6_1_49_inconsistent_ssvc_timestamp(&doc),
            Err(ValidationError {
                message: "Revision history must not be empty for status final or interim"
                    .to_string(),
                instance_path: "/document/tracking/revision_history".to_string(),
            })
        );
    }
}

#[test]
fn timestamps_are_compared_as_instants() {
    // 12:00 at +05:00 is 07:00 UTC, which is before 08:00 UTC although "12" sorts after "08".
    let earlier = document(
        DocumentStatus::Final,
        &["2024-03-01T08:00:00Z"],
        vec![Some(vec![valid("2024-03-01T12:00:00+05:00")])],
    );
    assert_eq!(test_6_1_49_inconsistent_ssvc_timestamp(&earlier), Ok(()));
    // 08:00 at -05:00 is 13:00 UTC, which is after 12:00 UTC although "08" sorts before "12".
    let later = document(
        DocumentStatus::Final,
        &["2024-03-01T12:00:00Z"],
        vec![Some(vec![valid("2024-03-01T08:00:00-05:00")])],
    );
    assert_eq!(
        test_6_1_49_inconsistent_ssvc_timestamp(&later),
        Err(ValidationError {
            message: "SSVC timestamp (2024-03-01T13:00:00+00:00) for vulnerability at index 0 is later than the newest revision date (2024-03-01T12:00:00+00:00)".to_string(),
            instance_path: "/vulnerabilities/0/metrics/0/content/ssvc_v1/timestamp".to_string(),
        })
    );
}

#[test]
fn timestamp_equal_to_newest_revision_passes() {
    let doc = document(
        DocumentStatus::Final,
        &["2024-03-01T12:00:00+02:00"],
        vec![Some(vec![valid("2024-03-01T10:00:00Z")])],
    );
    assert_eq!(test_6_1_49_inconsistent_ssvc_timestamp(&doc), Ok(()));
}

#[test]
fn newest_revision_is_the_last_of_those_at_the_same_instant() {
    let doc = document(
        DocumentStatus::Final,
        &["2024-03-01T10:00:00Z", "2024-03-01T12:00:00+02:00", "2024-01-01T00:00:00Z"],
        vec![None, Some(vec![without_ssvc(), valid("2024-03-01T10:00:00.5Z")])],
    );
    assert_eq!(
        test_6_1_49_inconsistent_ssvc_timestamp(&doc),
        Err(ValidationError {
            message: "SSVC timestamp (2024-03-01T10:00:00.500+00:00) for vulnerability at index 1 is later than the newest revision date (2024-03-01T12:00:00+02:00)".to_string(),
            instance_path: "/vulnerabilities/1/metrics/1/content/ssvc_v1/timestamp".to_string(),
        })
    );
}

#[test]
fn invalid_ssvc_object_fails_the_timestamp_test_too() {
    let doc = document(
        DocumentStatus::Interim,
        &["2024-03-01T10:00:00Z"],
        vec![Some(vec![valid("2024-03-01T09:00:00Z"), invalid("missing field `timestamp`")])],
    );
    assert_eq!(
        test_6_1_49_inconsistent_ssvc_timestamp(&doc),
        Err(ValidationError {
            message: "Invalid SSVC object: missing field `timestamp`".to_string(),
            instance_path: "/vulnerabilities/0/metrics/1/content/ssvc_v1".to_string(),
        })
    );
}

#[test]
fn timestamp_reads_and_writes_rfc3339() {
    let t = Timestamp::parse_from_rfc3339("1996-12-19T16:39:57-08:00").unwrap();
    assert_eq!(t.seconds(), 851042397);
    assert_eq!(t.nanos(), 0);
    assert_eq!(t.offset(), -8 * 3600);
    assert_eq!(t.to_rfc3339(), "1996-12-19T16:39:57-08:00");
    let z = Timestamp::parse_from_rfc3339("2024-01-24T10:00:00.000Z").unwrap();
    assert_eq!(z.to_rfc3339(), "2024-01-24T10:00:00+00:00");
    assert!(Timestamp::parse_from_rfc3339("2024-01-24 10:00:00").is_none());
    assert!(Timestamp::parse_from_rfc3339("2024-01-24T10:00:00").is_none());
    assert!(Timestamp::parse_from_rfc3339("").is_none());
}

#[test]
fn timestamp_from_parts() {
    let t = Timestamp::from_parts(1431648000, 0, 0).unwrap();
    assert_eq!(t.to_rfc3339(), "2015-05-15T00:00:00+00:00");
    let east = Timestamp::from_parts(1431648000, 250_000_000, 3600).unwrap();
    assert_eq!(east.to_rfc3339(), "2015-05-15T01:00:00.250+01:00");
    assert!(Timestamp::from_parts(0, 0, 86_400).is_none());
    assert!(Timestamp::from_parts(0, 2_000_000_000, 0).is_none());
    assert!(Timestamp::from_parts(i64::MAX, 0, 0).is_none());
}

#[test]
fn timestamp_order_ignores_offsets() {
    let a = Timestamp::parse_from_rfc3339("2024-03-01T12:00:00+05:00").unwrap();
    let b = Timestamp::parse_from_rfc3339("2024-03-01T08:00:00Z").unwrap();
    let c = Timestamp::parse_from_rfc3339("2024-03-01T08:00:00.000000001Z").unwrap();
    assert!(b.is_after(&a));
    assert!(!a.is_after(&b));
    assert!(c.is_after(&b));
    assert!(!b.is_after(&b));
}
