use crate::csaf::csaf2_0::schema::{
    CategoryOfTheRemediation, CommonSecurityAdvisoryFramework, Remediation, Vulnerability,
};
use crate::csaf::csaf2_1::schema::CategoryOfTheRemediation as Remediation21;
use crate::csaf::getter_traits::{CsafTrait, RemediationTrait, VulnerabilityTrait};
use crate::csaf::schema::{DocumentLevelMetaData, Metric, ProductTree};
use vstd::prelude::*;

verus! {

impl RemediationTrait for Remediation {
    fn get_category(&self) -> (r: Remediation21) {
        match self.category {
            CategoryOfTheRemediation::Mitigation => Remediation21::Mitigation,
            CategoryOfTheRemediation::NoFixPlanned => Remediation21::NoFixPlanned,
            CategoryOfTheRemediation::NoneAvailable => Remediation21::NoneAvailable,
            CategoryOfTheRemediation::VendorFix => Remediation21::VendorFix,
            CategoryOfTheRemediation::Workaround => Remediation21::Workaround,
        }
    }

    fn get_product_ids(&self) -> (r: Option<&Vec<String>>) {
        self.product_ids.as_ref()
    }

    fn get_group_ids(&self) -> (r: Option<&Vec<String>>) {
        self.group_ids.as_ref()
    }
}

impl VulnerabilityTrait for Vulnerability {
    type RemediationType = Remediation;

    fn get_remediations(&self) -> (r: &Vec<Remediation>) {
        &self.remediations
    }

    fn get_metrics(&self) -> (r: Option<&Vec<Metric>>) {
        None
    }
}

impl CsafTrait for CommonSecurityAdvisoryFramework {
    type VulnerabilityType = Vulnerability;

    fn get_document(&self) -> (r: &DocumentLevelMetaData) {
        &self.document
    }

    fn get_product_tree(&self) -> (r: Option<&ProductTree>) {
        self.product_tree.as_ref()
    }

    fn get_vulnerabilities(&self) -> (r: &Vec<Vulnerability>) {
        &self.vulnerabilities
    }
}

} // verus!
