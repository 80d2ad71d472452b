use crate::csaf::csaf2_1::schema::CategoryOfTheRemediation as UnifiedCategory;
use crate::csaf::model::{views, DocumentModel, RemediationModel, VulnerabilityModel};
use crate::csaf::schema::{DocumentLevelMetaData, ProductTree};
use crate::csaf::text::texts;
use vstd::prelude::*;

verus! {

/// The category of a remediation in revision 2.0.
#[derive(Clone, Copy, Debug, PartialEq, Eq, Structural, Hash)]
pub enum CategoryOfTheRemediation {
    Mitigation,
    NoFixPlanned,
    NoneAvailable,
    VendorFix,
    Workaround,
}

impl CategoryOfTheRemediation {
    /// The name of the category as documents write it.
    pub open spec fn name(self) -> Seq<char> {
        match self {
            CategoryOfTheRemediation::Mitigation => "mitigation"@,
            CategoryOfTheRemediation::NoFixPlanned => "no_fix_planned"@,
            CategoryOfTheRemediation::NoneAvailable => "none_available"@,
            CategoryOfTheRemediation::VendorFix => "vendor_fix"@,
            CategoryOfTheRemediation::Workaround => "workaround"@,
        }
    }

    /// The name of the category as documents write it.
    pub fn as_str(&self) -> (r: &'static str)
        ensures
            r@ == self.name(),
    {
        match self {
            CategoryOfTheRemediation::Mitigation => "mitigation",
            CategoryOfTheRemediation::NoFixPlanned => "no_fix_planned",
            CategoryOfTheRemediation::NoneAvailable => "none_available",
            CategoryOfTheRemediation::VendorFix => "vendor_fix",
            CategoryOfTheRemediation::Workaround => "workaround",
        }
    }

    /// The projection into the unified enumeration keeps the name of the category.
    pub proof fn lemma_unified_keeps_name(self)
        ensures
            self.unified().name() == self.name(),
    {
    }

    /// The category of the unified enumeration with the same name.
    pub open spec fn unified(self) -> UnifiedCategory {
        match self {
            CategoryOfTheRemediation::Mitigation => UnifiedCategory::Mitigation,
            CategoryOfTheRemediation::NoFixPlanned => UnifiedCategory::NoFixPlanned,
            CategoryOfTheRemediation::NoneAvailable => UnifiedCategory::NoneAvailable,
            CategoryOfTheRemediation::VendorFix => UnifiedCategory::VendorFix,
            CategoryOfTheRemediation::Workaround => UnifiedCategory::Workaround,
        }
    }
}

#[derive(Debug, PartialEq, Eq)]
pub struct Remediation {
    pub category: CategoryOfTheRemediation,
    pub product_ids: Option<Vec<String>>,
    pub group_ids: Option<Vec<String>>,
}

/// A vulnerability of revision 2.0, which has no metrics.
#[derive(Debug, PartialEq, Eq)]
pub struct Vulnerability {
    pub remediations: Vec<Remediation>,
}

/// A document of revision 2.0.
#[derive(Debug, PartialEq, Eq)]
pub struct CommonSecurityAdvisoryFramework {
    pub document: DocumentLevelMetaData,
    pub product_tree: Option<ProductTree>,
    pub vulnerabilities: Vec<Vulnerability>,
}

impl View for Remediation {
    type V = RemediationModel;

    open spec fn view(&self) -> RemediationModel {
        RemediationModel {
            category: self.category.unified(),
            product_ids: match self.product_ids {
                Some(ids) => Some(texts(ids@)),
                None => None,
            },
            group_ids: match self.group_ids {
                Some(ids) => Some(texts(ids@)),
                None => None,
            },
        }
    }
}

impl View for Vulnerability {
    type V = VulnerabilityModel;

    open spec fn view(&self) -> VulnerabilityModel {
        VulnerabilityModel { remediations: views(self.remediations@), metrics: None }
    }
}

impl View for CommonSecurityAdvisoryFramework {
    type V = DocumentModel;

    open spec fn view(&self) -> DocumentModel {
        DocumentModel {
            tracking: self.document.tracking@,
            product_tree: match self.product_tree {
                Some(tree) => Some(tree@),
                None => None,
            },
            vulnerabilities: views(self.vulnerabilities@),
        }
    }
}

} // verus!
