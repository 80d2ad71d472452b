use crate::csaf::getter_traits::{CsafTrait, VulnerabilityTrait};
use crate::csaf::model::{
    first_some, lemma_first_some_at, lemma_first_some_none, views, DocumentModel, FindingModel,
    MetricModel, SsvcModel, VulnerabilityModel,
};
use crate::csaf::schema::{revision_dates, DocumentStatus, Metric, Revision};
use crate::csaf::text::{decimal, decimal_string};
use crate::csaf::timestamp::{parsed_timestamp, Timestamp, TimestampModel};
use crate::csaf::validation::{finding_of, ValidationError};
use crate::csaf::validations::test_6_1_46::{
    invalid_ssvc_error, invalid_ssvc_finding, ssvc_instance_path, ssvc_path,
};
use vstd::prelude::*;

verus! {

/// The finding for a revision whose date is no RFC 3339 date and time.
pub open spec fn invalid_date_finding(date: Seq<char>, i_r: int) -> FindingModel {
    FindingModel {
        message: "Invalid date format in revision history: "@ + date,
        instance_path: "/document/tracking/revision_history/"@ + decimal(i_r as nat) + "/date"@,
    }
}

/// The finding for a final or interim document without revisions.
pub open spec fn empty_history_finding() -> FindingModel {
    FindingModel {
        message: "Revision history must not be empty for status final or interim"@,
        instance_path: "/document/tracking/revision_history"@,
    }
}

/// The finding for an SSVC timestamp that is later than the newest revision.
pub open spec fn late_timestamp_finding(
    timestamp: TimestampModel,
    newest: TimestampModel,
    i_v: int,
    i_m: int,
) -> FindingModel {
    FindingModel {
        message: "SSVC timestamp ("@ + timestamp.text() + ") for vulnerability at index "@
            + decimal(i_v as nat) + " is later than the newest revision date ("@ + newest.text()
            + ")"@,
        instance_path: ssvc_path(i_v, i_m) + "/timestamp"@,
    }
}

/// What each revision date gives: a finding where it cannot be read.
pub open spec fn date_findings(dates: Seq<Seq<char>>) -> Seq<Option<FindingModel>> {
    Seq::new(
        dates.len(),
        |i_r: int|
            if parsed_timestamp(dates[i_r]) is None {
                Some(invalid_date_finding(dates[i_r], i_r))
            } else {
                None
            },
    )
}

/// The timestamps that the revision dates stand for, in their order.
pub open spec fn revision_timestamps(dates: Seq<Seq<char>>) -> Seq<TimestampModel> {
    Seq::new(dates.len(), |i_r: int| parsed_timestamp(dates[i_r])->0)
}

/// The newest of a non-empty sequence of timestamps: none of them is after it, and of
/// several at the same instant it is the last.
pub open spec fn newest(ts: Seq<TimestampModel>) -> TimestampModel
    decreases ts.len(),
{
    if ts.len() <= 1 {
        ts[0]
    } else {
        let before = newest(ts.drop_last());
        if before.is_after(ts.last()) {
            before
        } else {
            ts.last()
        }
    }
}

/// What one metric gives: a finding where its `ssvc_v1` member is no SSVC object, or is one
/// with a timestamp after `newest`.
pub open spec fn timestamp_finding_in_metric(
    m: MetricModel,
    newest: TimestampModel,
    i_v: int,
    i_m: int,
) -> Option<FindingModel> {
    match m.ssvc_v1 {
        Some(SsvcModel::Valid { timestamp }) => if timestamp.is_after(newest) {
            Some(late_timestamp_finding(timestamp, newest, i_v, i_m))
        } else {
            None
        },
        Some(SsvcModel::Invalid { diagnostic }) => Some(invalid_ssvc_finding(diagnostic, i_v, i_m)),
        None => None,
    }
}

/// What each metric of one vulnerability gives, in the order of the metrics.
pub open spec fn timestamp_findings_in_metrics(
    metrics: Seq<MetricModel>,
    newest: TimestampModel,
    i_v: int,
) -> Seq<Option<FindingModel>> {
    Seq::new(
        metrics.len(),
        |i_m: int| timestamp_finding_in_metric(metrics[i_m], newest, i_v, i_m),
    )
}

/// What one vulnerability gives: the finding of its first metric that has one.
pub open spec fn timestamp_finding_in_vulnerability(
    v: VulnerabilityModel,
    newest: TimestampModel,
    i_v: int,
) -> Option<FindingModel> {
    match v.metrics {
        Some(metrics) => first_some(timestamp_findings_in_metrics(metrics, newest, i_v)),
        None => None,
    }
}

/// What each vulnerability gives, in document order.
pub open spec fn timestamp_findings_in_vulnerabilities(
    vs: Seq<VulnerabilityModel>,
    newest: TimestampModel,
) -> Seq<Option<FindingModel>> {
    Seq::new(vs.len(), |i_v: int| timestamp_finding_in_vulnerability(vs[i_v], newest, i_v))
}

/// The finding of the test for inconsistent SSVC timestamps. A draft passes. Otherwise the
/// first revision date that cannot be read fails the test; then an empty revision history;
/// then the first metric, in document order, whose `ssvc_v1` member is no SSVC object or
/// has a timestamp after the newest revision date.
pub open spec fn outcome_6_1_49(doc: DocumentModel) -> Option<FindingModel> {
    let dates = doc.tracking.revision_dates;
    if doc.tracking.status is Draft {
        None
    } else if first_some(date_findings(dates)) is Some {
        first_some(date_findings(dates))
    } else if dates.len() == 0 {
        Some(empty_history_finding())
    } else {
        first_some(
            timestamp_findings_in_vulnerabilities(
                doc.vulnerabilities,
                newest(revision_timestamps(dates)),
            ),
        )
    }
}

/// Whether metric `i_m` of vulnerability `i_v` holds an `ssvc_v1` member that is no SSVC
/// object, or is one with a timestamp after `newest`.
pub open spec fn late_or_invalid_at(
    doc: DocumentModel,
    newest: TimestampModel,
    i_v: int,
    i_m: int,
) -> bool {
    &&& 0 <= i_v < doc.vulnerabilities.len()
    &&& doc.vulnerabilities[i_v].metrics matches Some(metrics)
    &&& 0 <= i_m < metrics.len()
    &&& metrics[i_m].ssvc_v1 matches Some(ssvc)
    &&& match ssvc {
        SsvcModel::Valid { timestamp } => timestamp.is_after(newest),
        SsvcModel::Invalid { .. } => true,
    }
}

/// Whether the SSVC timestamps of a document are inconsistent with its revision history: the
/// document is final or interim, and a revision date cannot be read, or there is no
/// revision, or an `ssvc_v1` member is no SSVC object or has a timestamp after the newest
/// revision date.
pub open spec fn is_inconsistent(doc: DocumentModel) -> bool {
    let dates = doc.tracking.revision_dates;
    &&& !(doc.tracking.status is Draft)
    &&& {
        ||| exists|i_r: int|
            0 <= i_r < dates.len() && parsed_timestamp(#[trigger] dates[i_r]) is None
        ||| dates.len() == 0
        ||| exists|i_v: int, i_m: int|
            late_or_invalid_at(doc, newest(revision_timestamps(dates)), i_v, i_m)
    }
}

/// The test fails exactly the documents whose SSVC timestamps are inconsistent with their
/// revision history.
pub proof fn lemma_fails_iff_inconsistent(doc: DocumentModel)
    ensures
        outcome_6_1_49(doc) is Some <==> is_inconsistent(doc),
{
    let dates = doc.tracking.revision_dates;
    let of_dates = date_findings(dates);
    lemma_first_some_none(of_dates);
    if first_some(of_dates) is Some {
        let i_r = choose|i_r: int| 0 <= i_r < of_dates.len() && of_dates[i_r] is Some;
        assert(parsed_timestamp(dates[i_r]) is None);
    } else {
        assert forall|i_r: int| 0 <= i_r < dates.len() implies parsed_timestamp(
            #[trigger] dates[i_r],
        ) is Some by {
            assert(of_dates[i_r] is None);
        }
        if dates.len() > 0 && !(doc.tracking.status is Draft) {
            let latest = newest(revision_timestamps(dates));
            let vs = doc.vulnerabilities;
            let of_vs = timestamp_findings_in_vulnerabilities(vs, latest);
            lemma_first_some_none(of_vs);
            if outcome_6_1_49(doc) is Some {
                let i_v = choose|i_v: int| 0 <= i_v < of_vs.len() && of_vs[i_v] is Some;
                let of_metrics = timestamp_findings_in_metrics(vs[i_v].metrics->0, latest, i_v);
                lemma_first_some_none(of_metrics);
                let i_m = choose|i_m: int| 0 <= i_m < of_metrics.len() && of_metrics[i_m] is Some;
                assert(late_or_invalid_at(doc, latest, i_v, i_m));
            }
            if exists|i_v: int, i_m: int| late_or_invalid_at(doc, latest, i_v, i_m) {
                let (i_v, i_m) = choose|i_v: int, i_m: int|
                    late_or_invalid_at(doc, latest, i_v, i_m);
                let of_metrics = timestamp_findings_in_metrics(vs[i_v].metrics->0, latest, i_v);
                assert(of_metrics[i_m] is Some);
                lemma_first_some_none(of_metrics);
                assert(of_vs[i_v] is Some);
            }
        }
    }
}

/// The newest timestamp is one of the sequence, and none of the sequence is after it.
pub proof fn lemma_newest_is_latest(ts: Seq<TimestampModel>)
    requires
        ts.len() > 0,
    ensures
        ts.contains(newest(ts)),
        forall|i: int| 0 <= i < ts.len() ==> !ts[i].is_after(newest(ts)),
    decreases ts.len(),
{
    if ts.len() > 1 {
        let front = ts.drop_last();
        lemma_newest_is_latest(front);
        let before = newest(front);
        let k = choose|k: int| 0 <= k < front.len() && front[k] == before;
        assert(ts[k] == before);
        assert(ts[ts.len() - 1] == ts.last());
        assert forall|i: int| 0 <= i < ts.len() implies !ts[i].is_after(newest(ts)) by {
            if i < ts.len() - 1 {
                assert(front[i] == ts[i]);
            }
        }
    } else {
        assert(ts[0] == newest(ts));
    }
}

fn invalid_date_error(date: &String, i_r: usize) -> (r: ValidationError)
    ensures
        r@ == invalid_date_finding(date@, i_r as int),
{
    let mut message = String::from_str("Invalid date format in revision history: ");
    message.append(date.as_str());
    let mut instance_path = String::from_str("/document/tracking/revision_history/");
    instance_path.append(decimal_string(i_r).as_str());
    instance_path.append("/date");
    ValidationError { message, instance_path }
}

/// Writes the message for an SSVC timestamp that is later than the newest revision, the two
/// timestamps given in RFC 3339 form.
pub fn late_timestamp_message(timestamp: &str, i_v: usize, newest: &str) -> (r: String)
    ensures
        r@ == "SSVC timestamp ("@ + timestamp@ + ") for vulnerability at index "@ + decimal(
            i_v as nat,
        ) + " is later than the newest revision date ("@ + newest@ + ")"@,
{
    let mut message = String::from_str("SSVC timestamp (");
    message.append(timestamp);
    message.append(") for vulnerability at index ");
    message.append(decimal_string(i_v).as_str());
    message.append(" is later than the newest revision date (");
    message.append(newest);
    message.append(")");
    message
}

fn late_timestamp_error(
    timestamp: &Timestamp,
    newest: &Timestamp,
    i_v: usize,
    i_m: usize,
) -> (r: ValidationError)
    ensures
        r@ == late_timestamp_finding(timestamp@, newest@, i_v as int, i_m as int),
{
    let message = late_timestamp_message(
        timestamp.to_rfc3339().as_str(),
        i_v,
        newest.to_rfc3339().as_str(),
    );
    let mut instance_path = ssvc_instance_path(i_v, i_m);
    instance_path.append("/timestamp");
    ValidationError { message, instance_path }
}

/// Reads every revision date and returns the newest, or the finding for the first date that
/// cannot be read, or for a history without revisions.
fn newest_revision_date(history: &Vec<Revision>) -> (res: Result<Timestamp, ValidationError>)
    ensures
        match res {
            Ok(t) => {
                &&& first_some(date_findings(revision_dates(history@))) is None
                &&& history@.len() > 0
                &&& t@ == newest(revision_timestamps(revision_dates(history@)))
            },
            Err(e) => {
                let first = first_some(date_findings(revision_dates(history@)));
                if first is Some {
                    Some(e@) == first
                } else {
                    history@.len() == 0 && e@ == empty_history_finding()
                }
            },
        },
{
    let ghost dates = revision_dates(history@);
    let ghost findings = date_findings(dates);
    let ghost stamps = revision_timestamps(dates);
    let mut newest_date: Option<Timestamp> = None;
    let mut i_r: usize = 0;
    while i_r < history.len()
        invariant
            0 <= i_r <= history.len(),
            dates == revision_dates(history@),
            findings == date_findings(dates),
            stamps == revision_timestamps(dates),
            forall|j: int| 0 <= j < i_r ==> findings[j] is None,
            i_r == 0 ==> newest_date is None,
            i_r > 0 ==> newest_date is Some && newest_date->0@ == newest(stamps.take(i_r as int)),
        decreases history.len() - i_r,
    {
        let date_str = history[i_r].get_date();
        match Timestamp::parse_from_rfc3339(date_str.as_str()) {
            Some(date) => {
                proof {
                    assert(stamps.take(i_r + 1).drop_last() =~= stamps.take(i_r as int));
                    assert(stamps.take(i_r + 1).last() == date@);
                }
                newest_date = match newest_date {
                    None => Some(date),
                    Some(newest_so_far) => if newest_so_far.is_after(&date) {
                        Some(newest_so_far)
                    } else {
                        Some(date)
                    },
                };
            },
            None => {
                let e = invalid_date_error(date_str, i_r);
                proof {
                    lemma_first_some_at(findings, i_r as int);
                }
                return Err(e);
            },
        }
        i_r += 1;
    }
    proof {
        lemma_first_some_none(findings);
        assert(stamps.take(history.len() as int) =~= stamps);
    }
    match newest_date {
        Some(date) => Ok(date),
        None => Err(
            ValidationError {
                message: String::from_str(
                    "Revision history must not be empty for status final or interim",
                ),
                instance_path: String::from_str("/document/tracking/revision_history"),
            },
        ),
    }
}

/// Looks through the metrics of one vulnerability for an `ssvc_v1` member that is no SSVC
/// object or has a timestamp after `newest`.
fn check_metrics(metrics: &Vec<Metric>, newest: &Timestamp, i_v: usize) -> (res: Result<
    (),
    ValidationError,
>)
    ensures
        finding_of(res) == first_some(
            timestamp_findings_in_metrics(views(metrics@), newest@, i_v as int),
        ),
{
    let ghost findings = timestamp_findings_in_metrics(views(metrics@), newest@, i_v as int);
    let mut i_m: usize = 0;
    while i_m < metrics.len()
        invariant
            0 <= i_m <= metrics.len(),
            findings == timestamp_findings_in_metrics(views(metrics@), newest@, i_v as int),
            forall|j: int| 0 <= j < i_m ==> findings[j] is None,
        decreases metrics.len() - i_m,
    {
        match metrics[i_m].get_content().get_ssvc_v1() {
            Some(Ok(ssvc)) => {
                if ssvc.timestamp.is_after(newest) {
                    let e = late_timestamp_error(&ssvc.timestamp, newest, i_v, i_m);
                    proof {
                        lemma_first_some_at(findings, i_m as int);
                    }
                    return Err(e);
                }
            },
            Some(Err(diagnostic)) => {
                let e = invalid_ssvc_error(diagnostic, i_v, i_m);
                proof {
                    lemma_first_some_at(findings, i_m as int);
                }
                return Err(e);
            },
            None => {},
        }
        i_m += 1;
    }
    proof {
        lemma_first_some_none(findings);
    }
    Ok(())
}

/// Inconsistent SSVC timestamp: in a final or interim document, no SSVC timestamp may be
/// later than the date of the newest revision. Dates are compared as instants, whatever
/// offsets they are written with.
pub fn test_6_1_49_inconsistent_ssvc_timestamp<D: CsafTrait>(doc: &D) -> (res: Result<
    (),
    ValidationError,
>)
    ensures
        finding_of(res) == outcome_6_1_49(doc@),
        res is Err <==> is_inconsistent(doc@),
{
    proof {
        lemma_fails_iff_inconsistent(doc@);
    }
    let tracking = doc.get_document().get_tracking();
    let status = tracking.get_status();
    match status {
        DocumentStatus::Draft => {
            return Ok(());
        },
        _ => {},
    }
    let newest_revision = match newest_revision_date(tracking.get_revision_history()) {
        Ok(date) => date,
        Err(e) => {
            return Err(e);
        },
    };
    let vulnerabilities = doc.get_vulnerabilities();
    let ghost findings = timestamp_findings_in_vulnerabilities(
        doc@.vulnerabilities,
        newest_revision@,
    );
    let mut i_v: usize = 0;
    while i_v < vulnerabilities.len()
        invariant
            0 <= i_v <= vulnerabilities.len(),
            views(vulnerabilities@) == doc@.vulnerabilities,
            findings == timestamp_findings_in_vulnerabilities(
                doc@.vulnerabilities,
                newest_revision@,
            ),
            outcome_6_1_49(doc@) == first_some(findings),
            outcome_6_1_49(doc@) is Some <==> is_inconsistent(doc@),
            forall|j: int| 0 <= j < i_v ==> findings[j] is None,
        decreases vulnerabilities.len() - i_v,
    {
        if let Some(metrics) = vulnerabilities[i_v].get_metrics() {
            match check_metrics(metrics, &newest_revision, i_v) {
                Err(e) => {
                    proof {
                        lemma_first_some_at(findings, i_v as int);
                    }
                    return Err(e);
                },
                Ok(_) => {},
            }
        }
        i_v += 1;
    }
    proof {
        lemma_first_some_none(findings);
    }
    Ok(())
}

} // verus!
