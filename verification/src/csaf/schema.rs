use crate::csaf::model::{
    views, BranchModel, MetricModel, ProductGroupModel, ProductTreeModel, RelationshipModel,
    SsvcModel, TrackingModel,
};
use crate::csaf::text::texts;
use crate::csaf::timestamp::Timestamp;
use vstd::prelude::*;

verus! {

/// The status of a document.
#[derive(Clone, Copy, Debug, PartialEq, Eq, Structural, Hash)]
pub enum DocumentStatus {
    Draft,
    Final,
    Interim,
}

/// One entry of the revision history. `date` is kept as written and parsed on demand.
#[derive(Debug, PartialEq, Eq)]
pub struct Revision {
    pub date: String,
    pub number: String,
    pub summary: String,
}

#[derive(Debug, PartialEq, Eq)]
pub struct Tracking {
    pub status: DocumentStatus,
    pub revision_history: Vec<Revision>,
}

#[derive(Debug, PartialEq, Eq)]
pub struct DocumentLevelMetaData {
    pub tracking: Tracking,
}

/// A definition site of a product ID.
#[derive(Debug, PartialEq, Eq)]
pub struct FullProductName {
    pub product_id: String,
}

#[derive(Debug, PartialEq, Eq)]
pub struct Branch {
    pub category: String,
    pub name: String,
    pub product: Option<FullProductName>,
    pub branches: Vec<Branch>,
}

#[derive(Debug, PartialEq, Eq)]
pub struct Relationship {
    pub product_reference: String,
    pub relates_to_product_reference: String,
    pub full_product_name: FullProductName,
}

#[derive(Debug, PartialEq, Eq)]
pub struct ProductGroup {
    pub group_id: String,
    pub product_ids: Vec<String>,
}

#[derive(Debug, PartialEq, Eq)]
pub struct ProductTree {
    pub branches: Vec<Branch>,
    pub full_product_names: Vec<FullProductName>,
    pub product_groups: Vec<ProductGroup>,
    pub relationships: Vec<Relationship>,
}

/// An SSVC object as far as the tests read it.
#[derive(Debug)]
pub struct SsvcV1 {
    pub timestamp: Timestamp,
}

/// The content of a metric. `ssvc_v1` is absent where the content has no such member; else it
/// holds what interpreting the member as an SSVC object gave: the object, or the diagnostic.
#[derive(Debug)]
pub struct Content {
    pub ssvc_v1: Option<Result<SsvcV1, String>>,
}

#[derive(Debug)]
pub struct Metric {
    pub content: Content,
}

impl Revision {
    pub fn get_date(&self) -> (r: &String)
        ensures
            *r == self.date,
    {
        &self.date
    }

    pub fn get_number(&self) -> (r: &String)
        ensures
            *r == self.number,
    {
        &self.number
    }

    pub fn get_summary(&self) -> (r: &String)
        ensures
            *r == self.summary,
    {
        &self.summary
    }
}

impl Tracking {
    pub fn get_status(&self) -> (r: DocumentStatus)
        ensures
            r == self.status,
    {
        self.status
    }

    pub fn get_revision_history(&self) -> (r: &Vec<Revision>)
        ensures
            *r == self.revision_history,
    {
        &self.revision_history
    }
}

impl DocumentLevelMetaData {
    pub fn get_tracking(&self) -> (r: &Tracking)
        ensures
            *r == self.tracking,
    {
        &self.tracking
    }
}

impl FullProductName {
    pub fn get_product_id(&self) -> (r: &String)
        ensures
            *r == self.product_id,
    {
        &self.product_id
    }
}

impl Branch {
    pub fn get_branches(&self) -> (r: &Vec<Branch>)
        ensures
            *r == self.branches,
    {
        &self.branches
    }

    /// The product that the branch defines, or `None` where it defines none.
    pub fn get_product(&self) -> (r: Option<&FullProductName>)
        ensures
            r == match self.product {
                Some(product) => Some(&product),
                None => None,
            },
    {
        self.product.as_ref()
    }
}

impl Relationship {
    pub fn get_product_reference(&self) -> (r: &String)
        ensures
            *r == self.product_reference,
    {
        &self.product_reference
    }

    pub fn get_relates_to_product_reference(&self) -> (r: &String)
        ensures
            *r == self.relates_to_product_reference,
    {
        &self.relates_to_product_reference
    }

    pub fn get_full_product_name(&self) -> (r: &FullProductName)
        ensures
            *r == self.full_product_name,
    {
        &self.full_product_name
    }
}

impl ProductGroup {
    pub fn get_group_id(&self) -> (r: &String)
        ensures
            *r == self.group_id,
    {
        &self.group_id
    }

    pub fn get_product_ids(&self) -> (r: &Vec<String>)
        ensures
            *r == self.product_ids,
    {
        &self.product_ids
    }
}

impl ProductTree {
    pub fn get_branches(&self) -> (r: &Vec<Branch>)
        ensures
            *r == self.branches,
    {
        &self.branches
    }

    pub fn get_full_product_names(&self) -> (r: &Vec<FullProductName>)
        ensures
            *r == self.full_product_names,
    {
        &self.full_product_names
    }

    pub fn get_product_groups(&self) -> (r: &Vec<ProductGroup>)
        ensures
            *r == self.product_groups,
    {
        &self.product_groups
    }

    pub fn get_relationships(&self) -> (r: &Vec<Relationship>)
        ensures
            *r == self.relationships,
    {
        &self.relationships
    }
}

impl Content {
    /// What interpreting the `ssvc_v1` member gave, or `None` where the content has none.
    pub fn get_ssvc_v1(&self) -> (r: Option<&Result<SsvcV1, String>>)
        ensures
            r == match self.ssvc_v1 {
                Some(reading) => Some(&reading),
                None => None,
            },
    {
        self.ssvc_v1.as_ref()
    }
}

impl Metric {
    pub fn get_content(&self) -> (r: &Content)
        ensures
            *r == self.content,
    {
        &self.content
    }
}

/// The dates of a revision history, in its order.
pub open spec fn revision_dates(history: Seq<Revision>) -> Seq<Seq<char>> {
    Seq::new(history.len(), |i: int| history[i].date@)
}

impl View for Tracking {
    type V = TrackingModel;

    open spec fn view(&self) -> TrackingModel {
        TrackingModel {
            status: self.status,
            revision_dates: revision_dates(self.revision_history@),
        }
    }
}

impl View for FullProductName {
    type V = Seq<char>;

    open spec fn view(&self) -> Seq<char> {
        self.product_id@
    }
}

/// The model of a branch: the product ID it defines, and the models of its child branches.
pub open spec fn branch_model(b: Branch) -> BranchModel
    decreases b,
{
    BranchModel {
        product: match b.product {
            Some(p) => Some(p.product_id@),
            None => None,
        },
        branches: Seq::new(
            b.branches.len() as nat,
            |i: int|
                if 0 <= i < b.branches.len() {
                    branch_model(b.branches[i])
                } else {
                    arbitrary()
                },
        ),
    }
}

impl View for Branch {
    type V = BranchModel;

    open spec fn view(&self) -> BranchModel {
        branch_model(*self)
    }
}

impl Branch {
    /// The child branches of the view are the views of the child branches.
    pub proof fn lemma_view_branches(&self)
        ensures
            self@.branches == views(self.branches@),
    {
        assert(self@.branches.len() == self.branches@.len());
        assert(self@.branches =~= views(self.branches@));
    }
}

impl View for Relationship {
    type V = RelationshipModel;

    open spec fn view(&self) -> RelationshipModel {
        RelationshipModel {
            product_reference: self.product_reference@,
            relates_to_product_reference: self.relates_to_product_reference@,
            full_product_name: self.full_product_name.product_id@,
        }
    }
}

impl View for ProductGroup {
    type V = ProductGroupModel;

    open spec fn view(&self) -> ProductGroupModel {
        ProductGroupModel { group_id: self.group_id@, product_ids: texts(self.product_ids@) }
    }
}

impl View for ProductTree {
    type V = ProductTreeModel;

    open spec fn view(&self) -> ProductTreeModel {
        ProductTreeModel {
            branches: views(self.branches@),
            full_product_names: views(self.full_product_names@),
            relationships: views(self.relationships@),
            product_groups: views(self.product_groups@),
        }
    }
}

impl View for Metric {
    type V = MetricModel;

    open spec fn view(&self) -> MetricModel {
        MetricModel {
            ssvc_v1: match self.content.ssvc_v1 {
                Some(Ok(ssvc)) => Some(SsvcModel::Valid { timestamp: ssvc.timestamp@ }),
                Some(Err(diagnostic)) => Some(SsvcModel::Invalid { diagnostic: diagnostic@ }),
                None => None,
            },
        }
    }
}

} // verus!
