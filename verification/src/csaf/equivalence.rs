use crate::csaf::csaf2_0::schema::{
    CommonSecurityAdvisoryFramework as Document20, Remediation as Remediation20,
    Vulnerability as Vulnerability20,
};
use crate::csaf::csaf2_1::schema::{
    CommonSecurityAdvisoryFramework as Document21, Remediation as Remediation21,
    Vulnerability as Vulnerability21,
};
use crate::csaf::model::{option_view, views};
use crate::csaf::text::texts;
use crate::csaf::validation::{test_result, Test, Validatable};
use vstd::prelude::*;

verus! {

/// The texts of a list of IDs that may be absent.
pub open spec fn option_texts(ids: Option<Vec<String>>) -> Option<Seq<Seq<char>>> {
    match ids {
        Some(ids) => Some(texts(ids@)),
        None => None,
    }
}

/// Whether a remediation of revision 2.0 and one of revision 2.1 say the same: the category
/// of the one is the category of the other in the unified enumeration, and they name the same
/// products and groups.
pub open spec fn same_remediation(old: Remediation20, new: Remediation21) -> bool {
    &&& old.category.unified() == new.category
    &&& option_texts(old.product_ids) == option_texts(new.product_ids)
    &&& option_texts(old.group_ids) == option_texts(new.group_ids)
}

/// Whether a vulnerability of revision 2.0 and one of revision 2.1 say the same: the one of
/// revision 2.1 has no metrics, and their remediations say the same.
pub open spec fn same_vulnerability(old: Vulnerability20, new: Vulnerability21) -> bool {
    &&& new.metrics is None
    &&& old.remediations.len() == new.remediations.len()
    &&& forall|i: int|
        0 <= i < old.remediations.len() ==> same_remediation(
            #[trigger] old.remediations[i],
            new.remediations[i],
        )
}

/// Whether a document of revision 2.0 and one of revision 2.1 say the same.
pub open spec fn same_advisory(old: Document20, new: Document21) -> bool {
    &&& old.document.tracking@ == new.document.tracking@
    &&& option_view(old.product_tree) == option_view(new.product_tree)
    &&& old.vulnerabilities.len() == new.vulnerabilities.len()
    &&& forall|i: int|
        0 <= i < old.vulnerabilities.len() ==> same_vulnerability(
            #[trigger] old.vulnerabilities[i],
            new.vulnerabilities[i],
        )
}

/// Documents of the two revisions that say the same have the same model.
pub proof fn lemma_same_advisory_same_model(old: Document20, new: Document21)
    requires
        same_advisory(old, new),
    ensures
        old@ == new@,
{
    assert forall|i: int| 0 <= i < old.vulnerabilities.len() implies old.vulnerabilities[i]@
        == new.vulnerabilities[i]@ by {
        let a = old.vulnerabilities[i];
        let b = new.vulnerabilities[i];
        assert(same_vulnerability(a, b));
        assert forall|k: int| 0 <= k < a.remediations.len() implies a.remediations[k]@
            == b.remediations[k]@ by {
            assert(same_remediation(a.remediations[k], b.remediations[k]));
        }
        assert(views(a.remediations@) =~= views(b.remediations@));
    }
    assert(views(old.vulnerabilities@) =~= views(new.vulnerabilities@));
}

/// Accessor equivalence: on documents of the two revisions that say the same, every test has
/// the same finding, and every test that is registered for both revisions ends the same.
pub proof fn lemma_accessor_equivalence(old: Document20, new: Document21, test: Test)
    requires
        same_advisory(old, new),
    ensures
        test.outcome(old@) == test.outcome(new@),
        old.registered(test.id_text()) is Some ==> test_result(
            old.registered(test.id_text()),
            old.document(),
        ) == test_result(new.registered(test.id_text()), new.document()),
{
    lemma_same_advisory_same_model(old, new);
}

} // verus!
