use crate::csaf::csaf2_1::schema::CommonSecurityAdvisoryFramework;
use crate::csaf::model::DocumentModel;
use crate::csaf::text::texts;
use crate::csaf::validation::{
    preset_reports, test_of_id, test_result, validate_by_preset, validate_by_test, Test,
    TestReport, TestResult, Validatable, Validate, ValidationPreset,
};
use vstd::prelude::*;

verus! {

/// The identifiers of the tests of revision 2.1, in the order in which they run. The tests
/// are all mandatory ones, so every preset holds them all.
pub open spec fn registered_ids() -> Seq<Seq<char>> {
    seq![
        "6.1.01"@,
        "6.1.02"@,
        "6.1.03"@,
        "6.1.34"@,
        "6.1.35"@,
        "6.1.46"@,
        "6.1.49"@,
    ]
}

impl Validatable<CommonSecurityAdvisoryFramework> for CommonSecurityAdvisoryFramework {
    open spec fn preset_ids(&self, preset: ValidationPreset) -> Seq<Seq<char>> {
        registered_ids()
    }

    open spec fn registered(&self, test_id: Seq<char>) -> Option<Test> {
        test_of_id(test_id)
    }

    open spec fn document(&self) -> DocumentModel {
        self@
    }

    fn presets(&self, preset: ValidationPreset) -> (r: Vec<String>) {
        let mut ids: Vec<String> = Vec::new();
        ids.push(String::from_str("6.1.01"));
        ids.push(String::from_str("6.1.02"));
        ids.push(String::from_str("6.1.03"));
        ids.push(String::from_str("6.1.34"));
        ids.push(String::from_str("6.1.35"));
        ids.push(String::from_str("6.1.46"));
        ids.push(String::from_str("6.1.49"));
        assert(texts(ids@) =~= registered_ids());
        ids
    }

    fn tests(&self, test_id: &str) -> (r: Option<Test>) {
        Test::from_id(test_id)
    }

    fn doc(&self) -> (r: &CommonSecurityAdvisoryFramework) {
        self
    }

    proof fn lemma_full_preset(&self, test_id: Seq<char>) {
        let ids = registered_ids();
        assert(ids[0] == "6.1.01"@ && ids[1] == "6.1.02"@ && ids[2] == "6.1.03"@ && ids[3]
            == "6.1.34"@ && ids[4] == "6.1.35"@ && ids[5] == "6.1.46"@ && ids[6] == "6.1.49"@);
    }
}

impl Validate for CommonSecurityAdvisoryFramework {
    fn validate_preset(&self, preset: ValidationPreset) -> (r: Vec<TestReport>)
        ensures
            crate::csaf::model::views(r@) == preset_reports(self, preset),
    {
        validate_by_preset(self, preset)
    }

    fn validate_by_test(&self, test_id: &str) -> (r: TestResult)
        ensures
            r@ == test_result(test_of_id(test_id@), self@),
    {
        validate_by_test(self, test_id)
    }
}

} // verus!
