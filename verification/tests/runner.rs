use move_unit_test::errors::{
    ErrorLocation, ExpectedFailure, MoveError, ModuleId, MAJOR_STATUS_ABORTED,
    MAJOR_STATUS_OUT_OF_GAS,
};
use move_unit_test::matcher::{match_outcome, Verdict};
use move_unit_test::plan::{ModuleTestPlan, ModuleUnit, TestCase, TestPlan};
use move_unit_test::test_reporter::{FailureReason, TestRunInfo, TestStatistics};
use move_unit_test::test_runner::{
    adjudicate_test, setup_test_storage, topological_order, CrossCheck, SharedTestingConfig,
    TestExecution, TestOutcome, TestRunner, TestStorage,
};

fn module_id(name: &str) -> ModuleId {
    ModuleId::new(1, String::from(name))
}

fn test_case(expected_failure: Option<ExpectedFailure>) -> TestCase {
    TestCase { arguments: Vec::new(), expected_failure }
}

fn run_info(name: &str) -> TestRunInfo {
    TestRunInfo::new(String::from(name), 1500, 7)
}

fn plan_one(
    module: &str,
    test: &str,
    expected_failure: Option<ExpectedFailure>,
) -> ModuleTestPlan {
    ModuleTestPlan {
        module_id: module_id(module),
        tests: vec![(String::from(test), test_case(expected_failure))],
    }
}

fn execution(name: &str, primary_result: Result<Vec<Vec<u8>>, MoveError>) -> TestExecution {
    TestExecution { run_info: run_info(name), primary_result, cross: None }
}

fn config(check_stackless_vm: bool) -> SharedTestingConfig {
    SharedTestingConfig {
        report_stacktrace_on_abort: true,
        execution_bound: 5000,
        check_stackless_vm,
        verbose: false,
        colorize: false,
        source_files: Vec::new(),
        named_address_values: Vec::new(),
        starting_storage_state: TestStorage { entries: Vec::new() },
    }
}

fn aborted(code: u64) -> MoveError {
    MoveError::new(MAJOR_STATUS_ABORTED, Some(code), ErrorLocation::Script)
}

#[test]
fn passing_test_is_recorded_passed() {
    let plan = plan_one("m", "t1", None);
    let mut lines = Vec::new();
    let stats = config(false).exec_module_tests(&plan, vec![execution("t1", Ok(vec![]))], &mut lines);
    assert_eq!(stats.passed.len(), 1);
    assert_eq!(stats.failed.len(), 0);
    assert_eq!(stats.passed[0].0, module_id("m"));
    assert_eq!(stats.passed[0].1.function_ident, "t1");
    assert_eq!(lines, vec![String::from("[ PASS    ] m::t1")]);
}

#[test]
fn expected_abort_code_passes() {
    let plan = plan_one("m", "t2", Some(ExpectedFailure::ExpectedWithCodeDeprecated(42)));
    let mut lines = Vec::new();
    let stats =
        config(false).exec_module_tests(&plan, vec![execution("t2", Err(aborted(42)))], &mut lines);
    assert_eq!(stats.passed.len(), 1);
    assert_eq!(stats.failed.len(), 0);
    assert_eq!(lines, vec![String::from("[ PASS    ] m::t2")]);
}

#[test]
fn wrong_abort_code_fails() {
    let plan = plan_one("m", "t3", Some(ExpectedFailure::ExpectedWithCodeDeprecated(42)));
    let mut lines = Vec::new();
    let stats =
        config(false).exec_module_tests(&plan, vec![execution("t3", Err(aborted(43)))], &mut lines);
    assert_eq!(stats.passed.len(), 0);
    assert_eq!(stats.failed.len(), 1);
    match &stats.failed[0].1.failure_reason {
        FailureReason::WrongAbortDeprecated(_, expected, actual) => {
            assert_eq!(*expected, 42);
            assert_eq!(*actual, aborted(43));
        }
        other => panic!("unexpected reason: {:?}", other),
    }
    assert_eq!(lines, vec![String::from("[ FAIL    ] m::t3")]);
}

#[test]
fn out_of_gas_without_expectation_is_timeout() {
    let plan = plan_one("m", "t4", None);
    let out_of_gas = MoveError::new(MAJOR_STATUS_OUT_OF_GAS, None, ErrorLocation::Undefined);
    let mut lines = Vec::new();
    let stats =
        config(false).exec_module_tests(&plan, vec![execution("t4", Err(out_of_gas))], &mut lines);
    assert_eq!(stats.failed.len(), 1);
    match &stats.failed[0].1.failure_reason {
        FailureReason::Timeout(message) => assert_eq!(message, "Test timed out"),
        other => panic!("unexpected reason: {:?}", other),
    }
    assert_eq!(lines, vec![String::from("[ TIMEOUT ] m::t4")]);
}

#[test]
fn cross_backend_disagreement_is_mismatch() {
    let plan = plan_one("m", "t5", None);
    let exec = TestExecution {
        run_info: run_info("t5"),
        primary_result: Ok(vec![vec![0x01]]),
        cross: Some(CrossCheck {
            canonical_primary: Ok(vec![vec![0x01]]),
            reference_result: Ok(vec![vec![0x02]]),
            property_failure: None,
        }),
    };
    let mut lines = Vec::new();
    let stats = config(true).exec_module_tests(&plan, vec![exec], &mut lines);
    assert_eq!(stats.failed.len(), 1);
    match &stats.failed[0].1.failure_reason {
        FailureReason::Mismatch { primary_return_values, reference_return_values } => {
            assert_eq!(primary_return_values.as_ref().unwrap(), &vec![vec![0x01]]);
            assert_eq!(reference_return_values.as_ref().unwrap(), &vec![vec![0x02]]);
        }
        other => panic!("unexpected reason: {:?}", other),
    }
    assert_eq!(lines, vec![String::from("[ FAIL    ] m::t5")]);
}

#[test]
fn mismatch_ignores_declared_expectation() {
    // The same diverging execution under two different expectations
    // is adjudicated the same way: the matcher is never consulted.
    for expected in [None, Some(ExpectedFailure::Expected)] {
        let exec = TestExecution {
            run_info: run_info("t5"),
            primary_result: Ok(vec![vec![0x01]]),
            cross: Some(CrossCheck {
                canonical_primary: Ok(vec![vec![0x01]]),
                reference_result: Ok(vec![vec![0x02]]),
                property_failure: None,
            }),
        };
        match adjudicate_test(exec, &expected) {
            TestOutcome::Failed(f) => match f.failure_reason {
                FailureReason::Mismatch { .. } => {}
                other => panic!("unexpected reason: {:?}", other),
            },
            TestOutcome::Passed(_) => panic!("mismatch adjudicated as a pass"),
        }
    }
}

#[test]
fn property_violation_fails_after_agreement() {
    let exec = TestExecution {
        run_info: run_info("t7"),
        primary_result: Ok(vec![]),
        cross: Some(CrossCheck {
            canonical_primary: Ok(vec![]),
            reference_result: Ok(vec![]),
            property_failure: Some(String::from("global invariant broken")),
        }),
    };
    match adjudicate_test(exec, &None) {
        TestOutcome::Failed(f) => match f.failure_reason {
            FailureReason::Property(details) => assert_eq!(details, "global invariant broken"),
            other => panic!("unexpected reason: {:?}", other),
        },
        TestOutcome::Passed(_) => panic!("property violation adjudicated as a pass"),
    }
}

#[test]
fn expected_failure_that_succeeds_is_no_error() {
    let plan = plan_one("m", "t6", Some(ExpectedFailure::Expected));
    let mut lines = Vec::new();
    let stats = config(false).exec_module_tests(&plan, vec![execution("t6", Ok(vec![]))], &mut lines);
    assert_eq!(stats.failed.len(), 1);
    match &stats.failed[0].1.failure_reason {
        FailureReason::NoError(message) => assert_eq!(message, "Test did not error as expected"),
        other => panic!("unexpected reason: {:?}", other),
    }
}

#[test]
fn matcher_exact_error_expectation() {
    let expected = ExpectedFailure::ExpectedWithError(aborted(7));
    match match_outcome(&Err(aborted(7)), &Some(expected)) {
        Verdict::Pass => {}
        Verdict::Fail(r) => panic!("unexpected failure: {:?}", r),
    }
    let expected = ExpectedFailure::ExpectedWithError(aborted(7));
    let other_location = MoveError::new(MAJOR_STATUS_ABORTED, Some(7), ErrorLocation::Undefined);
    match match_outcome(&Err(other_location), &Some(expected)) {
        Verdict::Fail(FailureReason::WrongError(_, _, _)) => {}
        other => panic!("location difference not caught: {:?}", other),
    }
}

#[test]
fn matcher_out_of_gas_boundary() {
    // A zero gas budget either exhausts the bound or runs nothing;
    // the matcher takes the exhausted bound as a timeout under no
    // expectation and as a pass when any failure was acceptable.
    let out_of_gas = MoveError::new(MAJOR_STATUS_OUT_OF_GAS, None, ErrorLocation::Undefined);
    match match_outcome(&Err(out_of_gas), &None) {
        Verdict::Fail(FailureReason::Timeout(_)) => {}
        other => panic!("unexpected decision: {:?}", other),
    }
    let out_of_gas = MoveError::new(MAJOR_STATUS_OUT_OF_GAS, None, ErrorLocation::Undefined);
    match match_outcome(&Err(out_of_gas), &Some(ExpectedFailure::Expected)) {
        Verdict::Pass => {}
        other => panic!("unexpected decision: {:?}", other),
    }
}

#[test]
fn combine_merges_both_sides() {
    let plan_a = plan_one("a", "t1", None);
    let plan_b = plan_one("b", "t2", None);
    let mut stats_a = TestStatistics::new();
    stats_a.test_success(run_info("t1"), &plan_a);
    let mut stats_b = TestStatistics::new();
    stats_b.test_success(run_info("t2"), &plan_b);
    let merged = stats_a.combine(stats_b);
    assert_eq!(merged.passed.len(), 2);
    assert_eq!(merged.passed[0].0, module_id("a"));
    assert_eq!(merged.passed[1].0, module_id("b"));
}

#[test]
fn runner_end_to_end_all_passed() {
    let plan = TestPlan { module_tests: vec![plan_one("m", "t1", None)], modules: Vec::new() };
    let runner = TestRunner::new(
        5000,
        1,
        false,
        false,
        true,
        false,
        plan,
        Vec::new(),
        Vec::new(),
    )
    .unwrap();
    let mut lines = Vec::new();
    let results = runner.run(vec![vec![execution("t1", Ok(vec![]))]], &mut lines);
    assert_eq!(lines, vec![String::from("[ PASS    ] m::t1")]);
    let mut out = String::new();
    let all_passed = results.summarize(&mut out, false);
    assert!(all_passed);
    assert_eq!(out, "Test result: OK. Total tests: 1; passed: 1; failed: 0\n");
}

#[test]
fn filter_keeps_matching_tests() {
    let plan = TestPlan {
        module_tests: vec![ModuleTestPlan {
            module_id: module_id("m"),
            tests: vec![
                (String::from("alpha"), test_case(None)),
                (String::from("beta"), test_case(None)),
            ],
        }],
        modules: Vec::new(),
    };
    let mut runner = TestRunner::new(
        5000,
        1,
        false,
        false,
        true,
        false,
        plan,
        Vec::new(),
        Vec::new(),
    )
    .unwrap();
    runner.filter("alph");
    assert_eq!(runner.tests.module_tests[0].tests.len(), 1);
    assert_eq!(runner.tests.module_tests[0].tests[0].0, "alpha");
    // Filtering a second time with the same pattern changes nothing.
    runner.filter("alph");
    assert_eq!(runner.tests.module_tests[0].tests.len(), 1);
    assert_eq!(runner.tests.module_tests[0].tests[0].0, "alpha");
}

#[test]
fn filter_keeps_whole_module_on_module_name_match() {
    let plan = TestPlan {
        module_tests: vec![ModuleTestPlan {
            module_id: module_id("arith"),
            tests: vec![
                (String::from("t1"), test_case(None)),
                (String::from("t2"), test_case(None)),
            ],
        }],
        modules: Vec::new(),
    };
    let mut runner = TestRunner::new(
        5000,
        1,
        false,
        false,
        true,
        false,
        plan,
        Vec::new(),
        Vec::new(),
    )
    .unwrap();
    runner.filter("arith");
    assert_eq!(runner.tests.module_tests[0].tests.len(), 2);
}

fn unit(name: &str, deps: Vec<usize>, byte: u8) -> ModuleUnit {
    ModuleUnit { id: module_id(name), bytecode: vec![byte], deps }
}

#[test]
fn topological_order_respects_dependencies() {
    // c depends on b, b depends on a.
    let modules = vec![unit("a", vec![], 1), unit("b", vec![0], 2), unit("c", vec![1], 3)];
    let order = topological_order(&modules).unwrap();
    assert_eq!(order, vec![0, 1, 2]);
}

#[test]
fn topological_order_rejects_cycle() {
    let modules = vec![unit("a", vec![1], 1), unit("b", vec![0], 2)];
    assert!(topological_order(&modules).is_err());
}

#[test]
fn storage_publishes_in_dependency_order() {
    let modules = vec![unit("leaf", vec![1], 9), unit("base", vec![], 8)];
    let storage = setup_test_storage(&modules).unwrap();
    assert_eq!(storage.entries.len(), 2);
    assert_eq!(storage.entries[0].0, module_id("base"));
    assert_eq!(storage.entries[0].1, vec![8]);
    assert_eq!(storage.entries[1].0, module_id("leaf"));
    assert_eq!(storage.entries[1].1, vec![9]);
}

#[test]
fn instructions_consumed_is_bound_minus_remaining() {
    assert_eq!(move_unit_test::instructions_consumed(5000, 4400), 600);
    assert_eq!(move_unit_test::instructions_consumed(1, 0), 1);
}
