use crate::csaf::csaf2_1::schema::CategoryOfTheRemediation;
use crate::csaf::model::{
    option_view, views, DocumentModel, RemediationModel, VulnerabilityModel,
};
use crate::csaf::schema::{DocumentLevelMetaData, Metric, ProductTree};
use crate::csaf::text::texts;
use vstd::prelude::*;

verus! {

/// Read access to a remediation of either revision.
pub trait RemediationTrait: View<V = RemediationModel> {
    /// The category, projected into the unified enumeration.
    fn get_category(&self) -> (r: CategoryOfTheRemediation)
        ensures
            r == self@.category,
    ;

    /// The product IDs that the remediation names, or `None` where it has no such member.
    fn get_product_ids(&self) -> (r: Option<&Vec<String>>)
        ensures
            match r {
                Some(ids) => self@.product_ids == Some(texts(ids@)),
                None => self@.product_ids is None,
            },
    ;

    /// The group IDs that the remediation names, or `None` where it has no such member.
    fn get_group_ids(&self) -> (r: Option<&Vec<String>>)
        ensures
            match r {
                Some(ids) => self@.group_ids == Some(texts(ids@)),
                None => self@.group_ids is None,
            },
    ;
}

/// Read access to a vulnerability of either revision.
pub trait VulnerabilityTrait: View<V = VulnerabilityModel> {
    type RemediationType: RemediationTrait;

    fn get_remediations(&self) -> (r: &Vec<Self::RemediationType>)
        ensures
            views(r@) == self@.remediations,
    ;

    /// The metrics, or `None` where the vulnerability has no such member.
    fn get_metrics(&self) -> (r: Option<&Vec<Metric>>)
        ensures
            match r {
                Some(metrics) => self@.metrics == Some(views(metrics@)),
                None => self@.metrics is None,
            },
    ;
}

/// Read access to a document of either revision.
pub trait CsafTrait: View<V = DocumentModel> {
    type VulnerabilityType: VulnerabilityTrait;

    fn get_document(&self) -> (r: &DocumentLevelMetaData)
        ensures
            r.tracking@ == self@.tracking,
    ;

    /// The product tree, or `None` where the document has none.
    fn get_product_tree(&self) -> (r: Option<&ProductTree>)
        ensures
            option_view(r) == self@.product_tree,
    ;

    fn get_vulnerabilities(&self) -> (r: &Vec<Self::VulnerabilityType>)
        ensures
            views(r@) == self@.vulnerabilities,
    ;
}

} // verus!
