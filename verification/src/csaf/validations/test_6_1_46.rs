use crate::csaf::getter_traits::{CsafTrait, VulnerabilityTrait};
use crate::csaf::model::{
    first_some, lemma_first_some_at, lemma_first_some_none, views, DocumentModel, FindingModel,
    MetricModel, SsvcModel, VulnerabilityModel,
};
use crate::csaf::schema::Metric;
use crate::csaf::text::{decimal, decimal_string};
use crate::csaf::validation::{finding_of, ValidationError};
use vstd::prelude::*;

verus! {

/// The JSON pointer to the `ssvc_v1` member of metric `i_m` of vulnerability `i_v`.
pub open spec fn ssvc_path(i_v: int, i_m: int) -> Seq<char> {
    "/vulnerabilities/"@ + decimal(i_v as nat) + "/metrics/"@ + decimal(i_m as nat)
        + "/content/ssvc_v1"@
}

/// The finding for an `ssvc_v1` member that is no SSVC object.
pub open spec fn invalid_ssvc_finding(diagnostic: Seq<char>, i_v: int, i_m: int) -> FindingModel {
    FindingModel {
        message: "Invalid SSVC object: "@ + diagnostic,
        instance_path: ssvc_path(i_v, i_m),
    }
}

/// What one metric gives: a finding where it holds an `ssvc_v1` member that is no SSVC object.
pub open spec fn invalid_ssvc_in_metric(m: MetricModel, i_v: int, i_m: int) -> Option<
    FindingModel,
> {
    match m.ssvc_v1 {
        Some(SsvcModel::Invalid { diagnostic }) => Some(invalid_ssvc_finding(diagnostic, i_v, i_m)),
        _ => None,
    }
}

/// What each metric of one vulnerability gives, in the order of the metrics.
pub open spec fn invalid_ssvc_in_metrics(metrics: Seq<MetricModel>, i_v: int) -> Seq<
    Option<FindingModel>,
> {
    Seq::new(metrics.len(), |i_m: int| invalid_ssvc_in_metric(metrics[i_m], i_v, i_m))
}

/// What one vulnerability gives: the finding of its first metric that has one.
pub open spec fn invalid_ssvc_in_vulnerability(v: VulnerabilityModel, i_v: int) -> Option<
    FindingModel,
> {
    match v.metrics {
        Some(metrics) => first_some(invalid_ssvc_in_metrics(metrics, i_v)),
        None => None,
    }
}

/// What each vulnerability gives, in document order.
pub open spec fn invalid_ssvc_in_vulnerabilities(vs: Seq<VulnerabilityModel>) -> Seq<
    Option<FindingModel>,
> {
    Seq::new(vs.len(), |i_v: int| invalid_ssvc_in_vulnerability(vs[i_v], i_v))
}

/// The finding of the test for invalid SSVC objects: that of the first metric in document
/// order whose `ssvc_v1` member is no SSVC object, and none where every such member is one.
pub open spec fn outcome_6_1_46(doc: DocumentModel) -> Option<FindingModel> {
    first_some(invalid_ssvc_in_vulnerabilities(doc.vulnerabilities))
}

/// Whether metric `i_m` of vulnerability `i_v` holds an `ssvc_v1` member that is no SSVC
/// object.
pub open spec fn invalid_ssvc_at(doc: DocumentModel, i_v: int, i_m: int) -> bool {
    &&& 0 <= i_v < doc.vulnerabilities.len()
    &&& doc.vulnerabilities[i_v].metrics matches Some(metrics)
    &&& 0 <= i_m < metrics.len()
    &&& metrics[i_m].ssvc_v1 matches Some(SsvcModel::Invalid { .. })
}

/// The test fails exactly the documents that hold an `ssvc_v1` member that is no SSVC object.
pub proof fn lemma_fails_iff_invalid_ssvc(doc: DocumentModel)
    ensures
        outcome_6_1_46(doc) is Some <==> exists|i_v: int, i_m: int|
            invalid_ssvc_at(doc, i_v, i_m),
{
    let vs = doc.vulnerabilities;
    let of_vs = invalid_ssvc_in_vulnerabilities(vs);
    lemma_first_some_none(of_vs);
    if outcome_6_1_46(doc) is Some {
        let i_v = choose|i_v: int| 0 <= i_v < of_vs.len() && of_vs[i_v] is Some;
        let of_metrics = invalid_ssvc_in_metrics(vs[i_v].metrics->0, i_v);
        lemma_first_some_none(of_metrics);
        let i_m = choose|i_m: int| 0 <= i_m < of_metrics.len() && of_metrics[i_m] is Some;
        assert(invalid_ssvc_at(doc, i_v, i_m));
    }
    if exists|i_v: int, i_m: int| invalid_ssvc_at(doc, i_v, i_m) {
        let (i_v, i_m) = choose|i_v: int, i_m: int| invalid_ssvc_at(doc, i_v, i_m);
        let of_metrics = invalid_ssvc_in_metrics(vs[i_v].metrics->0, i_v);
        assert(of_metrics[i_m] is Some);
        lemma_first_some_none(of_metrics);
        assert(of_vs[i_v] is Some);
    }
}

/// Renders the JSON pointer to the `ssvc_v1` member of a metric.
pub fn ssvc_instance_path(i_v: usize, i_m: usize) -> (r: String)
    ensures
        r@ == ssvc_path(i_v as int, i_m as int),
{
    let mut path = String::from_str("/vulnerabilities/");
    path.append(decimal_string(i_v).as_str());
    path.append("/metrics/");
    path.append(decimal_string(i_m).as_str());
    path.append("/content/ssvc_v1");
    path
}

/// Makes the finding for an `ssvc_v1` member that is no SSVC object.
pub fn invalid_ssvc_error(diagnostic: &String, i_v: usize, i_m: usize) -> (r: ValidationError)
    ensures
        r@ == invalid_ssvc_finding(diagnostic@, i_v as int, i_m as int),
{
    let mut message = String::from_str("Invalid SSVC object: ");
    message.append(diagnostic.as_str());
    ValidationError { message, instance_path: ssvc_instance_path(i_v, i_m) }
}

/// Looks through the metrics of one vulnerability for an `ssvc_v1` member that is no SSVC
/// object.
fn check_metrics(metrics: &Vec<Metric>, i_v: usize) -> (res: Result<(), ValidationError>)
    ensures
        finding_of(res) == first_some(invalid_ssvc_in_metrics(views(metrics@), i_v as int)),
{
    let ghost findings = invalid_ssvc_in_metrics(views(metrics@), i_v as int);
    let mut i_m: usize = 0;
    while i_m < metrics.len()
        invariant
            0 <= i_m <= metrics.len(),
            findings == invalid_ssvc_in_metrics(views(metrics@), i_v as int),
            forall|j: int| 0 <= j < i_m ==> findings[j] is None,
        decreases metrics.len() - i_m,
    {
        match metrics[i_m].get_content().get_ssvc_v1() {
            Some(Err(diagnostic)) => {
                let e = invalid_ssvc_error(diagnostic, i_v, i_m);
                proof {
                    lemma_first_some_at(findings, i_m as int);
                }
                return Err(e);
            },
            _ => {},
        }
        i_m += 1;
    }
    proof {
        lemma_first_some_none(findings);
    }
    Ok(())
}

/// Invalid SSVC object: every `ssvc_v1` member of a metric's content must be an SSVC object.
/// Fails on the first metric, in document order, whose member is none, with the diagnostic
/// of the failed interpretation.
pub fn test_6_1_46_invalid_ssvc<D: CsafTrait>(doc: &D) -> (res: Result<(), ValidationError>)
    ensures
        finding_of(res) == outcome_6_1_46(doc@),
        res is Err <==> exists|i_v: int, i_m: int| invalid_ssvc_at(doc@, i_v, i_m),
{
    proof {
        lemma_fails_iff_invalid_ssvc(doc@);
    }
    let vulnerabilities = doc.get_vulnerabilities();
    let ghost findings = invalid_ssvc_in_vulnerabilities(doc@.vulnerabilities);
    let mut i_v: usize = 0;
    while i_v < vulnerabilities.len()
        invariant
            0 <= i_v <= vulnerabilities.len(),
            views(vulnerabilities@) == doc@.vulnerabilities,
            findings == invalid_ssvc_in_vulnerabilities(doc@.vulnerabilities),
            outcome_6_1_46(doc@) is Some <==> exists|i_v: int, i_m: int|
                invalid_ssvc_at(doc@, i_v, i_m),
            forall|j: int| 0 <= j < i_v ==> findings[j] is None,
        decreases vulnerabilities.len() - i_v,
    {
        if let Some(metrics) = vulnerabilities[i_v].get_metrics() {
            match check_metrics(metrics, i_v) {
                Err(e) => {
                    proof {
                        lemma_first_some_at(findings, i_v as int);
                    }
                    return Err(e);
                },
                Ok(_) => {},
            }
        }
        i_v += 1;
    }
    proof {
        lemma_first_some_none(findings);
    }
    Ok(())
}

} // verus!
