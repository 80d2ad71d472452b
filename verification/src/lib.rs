// Conformance tests for CSAF security advisories of revisions 2.0 and 2.1.
//
// The tests read a document through the accessors of `csaf::getter_traits`, so that one test
// serves both revisions. What each test finds is stated over `csaf::model`, the part of a
// document that the tests read.

pub mod csaf;
