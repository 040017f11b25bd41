use crate::errors::{ExpectedFailure, ExpectedFailureV, ModuleId, ModuleIdV};
use vstd::prelude::*;

verus! {

/// One test entry: the ordered, already-serialized argument values for
/// the entry function, and the declared expectation of failure.
#[derive(Debug, Clone)]
pub struct TestCase {
    pub arguments: Vec<Vec<u8>>,
    pub expected_failure: Option<ExpectedFailure>,
}

#[verifier::ext_equal]
pub ghost struct TestCaseV {
    pub arguments: Seq<Seq<u8>>,
    pub expected_failure: Option<ExpectedFailureV>,
}

impl View for TestCase {
    type V = TestCaseV;

    open spec fn view(&self) -> TestCaseV {
        TestCaseV {
            arguments: self.arguments.deep_view(),
            expected_failure: match self.expected_failure {
                Option::None => Option::None,
                Option::Some(e) => Option::Some(e@),
            },
        }
    }
}

impl TestCase {
    pub fn duplicate(&self) -> (r: TestCase)
        ensures
            r@ == self@,
    {
        let expected_failure = match &self.expected_failure {
            Option::None => Option::None,
            Option::Some(e) => Option::Some(e.duplicate()),
        };
        TestCase { arguments: crate::test_reporter::duplicate_values(&self.arguments), expected_failure }
    }
}

/// The tests of one module: the module's identifier and the tests in
/// declaration order, each under its name.
#[derive(Debug, Clone)]
pub struct ModuleTestPlan {
    pub module_id: ModuleId,
    pub tests: Vec<(String, TestCase)>,
}

#[verifier::ext_equal]
pub ghost struct ModuleTestPlanV {
    pub module_id: ModuleIdV,
    pub tests: Seq<(Seq<char>, TestCaseV)>,
}

impl View for ModuleTestPlan {
    type V = ModuleTestPlanV;

    open spec fn view(&self) -> ModuleTestPlanV {
        ModuleTestPlanV {
            module_id: self.module_id@,
            tests: self.tests@.map_values(|t: (String, TestCase)| (t.0@, t.1@)),
        }
    }
}

/// One compiled module as the storage bootstrapper consumes it: its
/// identifier, its serialized bytecode, and the indices (into the same
/// collection) of the modules it depends on.
#[derive(Debug, Clone)]
pub struct ModuleUnit {
    pub id: ModuleId,
    pub bytecode: Vec<u8>,
    pub deps: Vec<usize>,
}

#[verifier::ext_equal]
pub ghost struct ModuleUnitV {
    pub id: ModuleIdV,
    pub bytecode: Seq<u8>,
    pub deps: Seq<usize>,
}

impl View for ModuleUnit {
    type V = ModuleUnitV;

    open spec fn view(&self) -> ModuleUnitV {
        ModuleUnitV { id: self.id@, bytecode: self.bytecode@, deps: self.deps@ }
    }
}

/// The fully-compiled input to the runner: the per-module test plans
/// and the compiled modules any test may need.
#[derive(Debug, Clone)]
pub struct TestPlan {
    pub module_tests: Vec<ModuleTestPlan>,
    pub modules: Vec<ModuleUnit>,
}

#[verifier::ext_equal]
pub ghost struct TestPlanV {
    pub module_tests: Seq<ModuleTestPlanV>,
    pub modules: Seq<ModuleUnitV>,
}

impl View for TestPlan {
    type V = TestPlanV;

    open spec fn view(&self) -> TestPlanV {
        TestPlanV {
            module_tests: self.module_tests@.map_values(|m: ModuleTestPlan| m@),
            modules: self.modules@.map_values(|m: ModuleUnit| m@),
        }
    }
}

} // verus!
