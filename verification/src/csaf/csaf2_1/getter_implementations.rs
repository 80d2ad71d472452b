use crate::csaf::csaf2_1::schema::{
    CategoryOfTheRemediation, CommonSecurityAdvisoryFramework, Remediation, Vulnerability,
};
use crate::csaf::getter_traits::{CsafTrait, RemediationTrait, VulnerabilityTrait};
use crate::csaf::schema::{DocumentLevelMetaData, Metric, ProductTree};
use vstd::prelude::*;

verus! {

impl RemediationTrait for Remediation {
    fn get_category(&self) -> (r: CategoryOfTheRemediation) {
        self.category
    }

    fn get_product_ids(&self) -> (r: Option<&Vec<String>>) {
        self.product_ids.as_ref()
    }

    fn get_group_ids(&self) -> (r: Option<&Vec<String>>) {
        self.group_ids.as_ref()
    }
}

impl VulnerabilityTrait for Vulnerability {
    type RemediationType = Remediation;

    fn get_remediations(&self) -> (r: &Vec<Remediation>) {
        &self.remediations
    }

    fn get_metrics(&self) -> (r: Option<&Vec<Metric>>) {
        self.metrics.as_ref()
    }
}

impl CsafTrait for CommonSecurityAdvisoryFramework {
    type VulnerabilityType = Vulnerability;

    fn get_document(&self) -> (r: &DocumentLevelMetaData) {
        &self.document
    }

    fn get_product_tree(&self) -> (r: Option<&ProductTree>) {
        self.product_tree.as_ref()
    }

    fn get_vulnerabilities(&self) -> (r: &Vec<Vulnerability>) {
        &self.vulnerabilities
    }
}

} // verus!
