use crate::csaf::model::{views, DocumentModel, RemediationModel, VulnerabilityModel};
use crate::csaf::schema::{DocumentLevelMetaData, Metric, ProductTree};
use crate::csaf::text::texts;
use vstd::prelude::*;

verus! {

/// The category of a remediation. This is the enumeration of revision 2.1, into which the
/// categories of revision 2.0 are projected.
#[derive(Clone, Copy, Debug, PartialEq, Eq, Structural, Hash)]
pub enum CategoryOfTheRemediation {
    FixPlanned,
    Mitigation,
    NoFixAvailable,
    NoFixPlanned,
    NoneAvailable,
    OptionalPatch,
    VendorFix,
    Workaround,
}

impl CategoryOfTheRemediation {
    /// The name of the category as documents write it.
    pub open spec fn name(self) -> Seq<char> {
        match self {
            CategoryOfTheRemediation::FixPlanned => "fix_planned"@,
            CategoryOfTheRemediation::Mitigation => "mitigation"@,
            CategoryOfTheRemediation::NoFixAvailable => "no_fix_available"@,
            CategoryOfTheRemediation::NoFixPlanned => "no_fix_planned"@,
            CategoryOfTheRemediation::NoneAvailable => "none_available"@,
            CategoryOfTheRemediation::OptionalPatch => "optional_patch"@,
            CategoryOfTheRemediation::VendorFix => "vendor_fix"@,
            CategoryOfTheRemediation::Workaround => "workaround"@,
        }
    }

    /// Whether the category is one of the measures, of which a product can have but one.
    pub open spec fn is_measure(self) -> bool {
        self is NoneAvailable || self is Workaround || self is Mitigation
    }

    /// Whether the category is one of the states of a fix, of which a product can have but
    /// one.
    pub open spec fn is_fix_state(self) -> bool {
        self is NoneAvailable || self is NoFixPlanned || self is FixPlanned
            || self is OptionalPatch || self is VendorFix
    }

    /// Whether a product cannot have both categories: both are measures, or both are states of
    /// a fix. `NoneAvailable` is both, and so contradicts itself.
    pub open spec fn contradicts(self, other: CategoryOfTheRemediation) -> bool {
        (self.is_measure() && other.is_measure()) || (self.is_fix_state()
            && other.is_fix_state())
    }

    /// The name of the category as documents write it.
    pub fn as_str(&self) -> (r: &'static str)
        ensures
            r@ == self.name(),
    {
        match self {
            CategoryOfTheRemediation::FixPlanned => "fix_planned",
            CategoryOfTheRemediation::Mitigation => "mitigation",
            CategoryOfTheRemediation::NoFixAvailable => "no_fix_available",
            CategoryOfTheRemediation::NoFixPlanned => "no_fix_planned",
            CategoryOfTheRemediation::NoneAvailable => "none_available",
            CategoryOfTheRemediation::OptionalPatch => "optional_patch",
            CategoryOfTheRemediation::VendorFix => "vendor_fix",
            CategoryOfTheRemediation::Workaround => "workaround",
        }
    }

    /// The name of the category as a string of its own.
    pub fn to_string(&self) -> (r: String)
        ensures
            r@ == self.name(),
    {
        String::from_str(self.as_str())
    }

    /// Whether the category is one of the measures.
    pub fn in_measures(&self) -> (r: bool)
        ensures
            r == self.is_measure(),
    {
        match self {
            CategoryOfTheRemediation::NoneAvailable
            | CategoryOfTheRemediation::Workaround
            | CategoryOfTheRemediation::Mitigation => true,
            _ => false,
        }
    }

    /// Whether the category is one of the states of a fix.
    pub fn in_fix_states(&self) -> (r: bool)
        ensures
            r == self.is_fix_state(),
    {
        match self {
            CategoryOfTheRemediation::NoneAvailable
            | CategoryOfTheRemediation::NoFixPlanned
            | CategoryOfTheRemediation::FixPlanned
            | CategoryOfTheRemediation::OptionalPatch
            | CategoryOfTheRemediation::VendorFix => true,
            _ => false,
        }
    }

    /// Whether a product cannot have both categories.
    pub fn is_contradicted_by(&self, other: &CategoryOfTheRemediation) -> (r: bool)
        ensures
            r == self.contradicts(*other),
    {
        (self.in_measures() && other.in_measures()) || (self.in_fix_states()
            && other.in_fix_states())
    }
}

#[derive(Debug, PartialEq, Eq)]
pub struct Remediation {
    pub category: CategoryOfTheRemediation,
    pub product_ids: Option<Vec<String>>,
    pub group_ids: Option<Vec<String>>,
}

#[derive(Debug)]
pub struct Vulnerability {
    pub metrics: Option<Vec<Metric>>,
    pub remediations: Vec<Remediation>,
}

/// A document of revision 2.1.
#[derive(Debug)]
pub struct CommonSecurityAdvisoryFramework {
    pub document: DocumentLevelMetaData,
    pub product_tree: Option<ProductTree>,
    pub vulnerabilities: Vec<Vulnerability>,
}

impl View for Remediation {
    type V = RemediationModel;

    open spec fn view(&self) -> RemediationModel {
        RemediationModel {
            category: self.category,
            product_ids: match self.product_ids {
                Some(ids) => Some(texts(ids@)),
                None => None,
            },
            group_ids: match self.group_ids {
                Some(ids) => Some(texts(ids@)),
                None => None,
            },
        }
    }
}

impl View for Vulnerability {
    type V = VulnerabilityModel;

    open spec fn view(&self) -> VulnerabilityModel {
        VulnerabilityModel {
            remediations: views(self.remediations@),
            metrics: match self.metrics {
                Some(metrics) => Some(views(metrics@)),
                None => None,
            },
        }
    }
}

impl View for CommonSecurityAdvisoryFramework {
    type V = DocumentModel;

    open spec fn view(&self) -> DocumentModel {
        DocumentModel {
            tracking: self.document.tracking@,
            product_tree: match self.product_tree {
                Some(tree) => Some(tree@),
                None => None,
            },
            vulnerabilities: views(self.vulnerabilities@),
        }
    }
}

} // verus!
