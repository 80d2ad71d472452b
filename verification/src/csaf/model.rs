use crate::csaf::csaf2_1::schema::CategoryOfTheRemediation;
use crate::csaf::schema::DocumentStatus;
use crate::csaf::timestamp::TimestampModel;
use vstd::prelude::*;

verus! {

/// A branch of the product tree: the product ID it defines, if any, and its child branches.
#[verifier::ext_equal]
pub struct BranchModel {
    pub product: Option<Seq<char>>,
    pub branches: Seq<BranchModel>,
}

/// A directed edge from `product_reference` to `relates_to_product_reference` that defines the
/// product ID `full_product_name`.
#[verifier::ext_equal]
pub struct RelationshipModel {
    pub product_reference: Seq<char>,
    pub relates_to_product_reference: Seq<char>,
    pub full_product_name: Seq<char>,
}

#[verifier::ext_equal]
pub struct ProductGroupModel {
    pub group_id: Seq<char>,
    pub product_ids: Seq<Seq<char>>,
}

#[verifier::ext_equal]
pub struct ProductTreeModel {
    pub branches: Seq<BranchModel>,
    pub full_product_names: Seq<Seq<char>>,
    pub relationships: Seq<RelationshipModel>,
    pub product_groups: Seq<ProductGroupModel>,
}

/// A remediation with its category in the unified enumeration.
#[verifier::ext_equal]
pub struct RemediationModel {
    pub category: CategoryOfTheRemediation,
    pub product_ids: Option<Seq<Seq<char>>>,
    pub group_ids: Option<Seq<Seq<char>>>,
}

/// What interpreting the `ssvc_v1` member of a metric's content gave: the object's timestamp,
/// or the diagnostic of the failed interpretation.
#[verifier::ext_equal]
pub enum SsvcModel {
    Valid { timestamp: TimestampModel },
    Invalid { diagnostic: Seq<char> },
}

#[verifier::ext_equal]
pub struct MetricModel {
    pub ssvc_v1: Option<SsvcModel>,
}

#[verifier::ext_equal]
pub struct VulnerabilityModel {
    pub remediations: Seq<RemediationModel>,
    pub metrics: Option<Seq<MetricModel>>,
}

#[verifier::ext_equal]
pub struct TrackingModel {
    pub status: DocumentStatus,
    pub revision_dates: Seq<Seq<char>>,
}

/// The part of an advisory that the conformance tests read, whatever its revision.
#[verifier::ext_equal]
pub struct DocumentModel {
    pub tracking: TrackingModel,
    pub product_tree: Option<ProductTreeModel>,
    pub vulnerabilities: Seq<VulnerabilityModel>,
}

/// A finding: what is wrong, and a JSON pointer to where.
#[verifier::ext_equal]
pub struct FindingModel {
    pub message: Seq<char>,
    pub instance_path: Seq<char>,
}

/// The views of the items of `v`, in the same order.
pub open spec fn views<T: View>(v: Seq<T>) -> Seq<T::V> {
    Seq::new(v.len(), |i: int| v[i]@)
}

/// The view of what `o` holds, if it holds anything.
pub open spec fn option_view<T: View>(o: Option<T>) -> Option<T::V> {
    match o {
        Some(x) => Some(x@),
        None => None,
    }
}

/// The first item of `s` that is `Some`, if there is one.
pub open spec fn first_some<T>(s: Seq<Option<T>>) -> Option<T>
    decreases s.len(),
{
    if s.len() == 0 {
        None
    } else if s[0] is Some {
        s[0]
    } else {
        first_some(s.drop_first())
    }
}

/// `first_some` is the item at the least index that holds one.
pub proof fn lemma_first_some_at<T>(s: Seq<Option<T>>, i: int)
    requires
        0 <= i < s.len(),
        s[i] is Some,
        forall|j: int| 0 <= j < i ==> s[j] is None,
    ensures
        first_some(s) == s[i],
    decreases s.len(),
{
    if i > 0 {
        let rest = s.drop_first();
        assert forall|j: int| 0 <= j < i - 1 implies rest[j] is None by {
            assert(rest[j] == s[j + 1]);
        }
        lemma_first_some_at(rest, i - 1);
    }
}

/// `first_some` is `None` exactly where no item holds anything.
pub proof fn lemma_first_some_none<T>(s: Seq<Option<T>>)
    ensures
        first_some(s) is None <==> forall|j: int| 0 <= j < s.len() ==> s[j] is None,
    decreases s.len(),
{
    if s.len() > 0 {
        let rest = s.drop_first();
        lemma_first_some_none(rest);
        if s[0] is None {
            if first_some(rest) is None {
                assert forall|j: int| 0 <= j < s.len() implies s[j] is None by {
                    if j > 0 {
                        assert(rest[j - 1] == s[j]);
                    }
                }
            } else {
                let k = choose|k: int| 0 <= k < rest.len() && rest[k] is Some;
                assert(s[k + 1] is Some);
            }
        }
    }
}

} // verus!
