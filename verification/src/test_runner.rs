use vstd::string::StringSliceAdditionalSpecFns;
use crate::errors::{ExpectedFailureV, ModuleId, ModuleIdV, MAJOR_STATUS_EXECUTED};
use crate::matcher::{
    match_outcome, spec_expected_failure_view, spec_verdict, Verdict, VerdictV,
};
use crate::plan::{ModuleTestPlan, ModuleTestPlanV, ModuleUnit, ModuleUnitV, TestPlan};
use crate::test_reporter::{
    push_line, vm_result_view, FailureReason, FailureReasonV, TestFailure, TestFailureV,
    TestResults, TestRunInfo, TestRunInfoV, TestStatistics, TestStatisticsV, VmResult, VmResultV,
};
use crate::plan::{TestCase, TestCaseV};
use crate::text::{bytes_contain, colored, green_code, red_code, spec_colored, str_contains, yellow_code};
use crate::test_reporter::{qualified_name, spec_qualified};
use vstd::prelude::*;

verus! {

/// What the reference backend added to one test's execution when
/// cross-backend checking was on: the primary result carried into the
/// reference backend's result shape, the reference backend's own
/// result, and the property checker's report, if it made one.
#[derive(Debug)]
pub struct CrossCheck {
    pub canonical_primary: VmResult,
    pub reference_result: VmResult,
    pub property_failure: Option<String>,
}

#[verifier::ext_equal]
pub ghost struct CrossCheckV {
    pub canonical_primary: VmResultV,
    pub reference_result: VmResultV,
    pub property_failure: Option<Seq<char>>,
}

impl View for CrossCheck {
    type V = CrossCheckV;

    open spec fn view(&self) -> CrossCheckV {
        CrossCheckV {
            canonical_primary: vm_result_view(self.canonical_primary),
            reference_result: vm_result_view(self.reference_result),
            property_failure: match &self.property_failure {
                Option::None => Option::None,
                Option::Some(p) => Option::Some(p@),
            },
        }
    }
}

/// Everything the backends reported for one executed test.
#[derive(Debug)]
pub struct TestExecution {
    pub run_info: TestRunInfo,
    pub primary_result: VmResult,
    pub cross: Option<CrossCheck>,
}

#[verifier::ext_equal]
pub ghost struct TestExecutionV {
    pub run_info: TestRunInfoV,
    pub primary_result: VmResultV,
    pub cross: Option<CrossCheckV>,
}

impl View for TestExecution {
    type V = TestExecutionV;

    open spec fn view(&self) -> TestExecutionV {
        TestExecutionV {
            run_info: self.run_info@,
            primary_result: vm_result_view(self.primary_result),
            cross: match &self.cross {
                Option::None => Option::None,
                Option::Some(c) => Option::Some(c@),
            },
        }
    }
}

/// The virtual machine never pairs an error with the successful major
/// status; an execution that did would be a bug in the backend.
pub open spec fn execution_wf(e: TestExecutionV) -> bool {
    e.primary_result matches Result::Err(a) ==> a.major_status != MAJOR_STATUS_EXECUTED
}

/// The adjudicated fate of one test.
#[derive(Debug)]
pub enum TestOutcome {
    Passed(TestRunInfo),
    Failed(TestFailure),
}

#[verifier::ext_equal]
pub ghost enum TestOutcomeV {
    Passed(TestRunInfoV),
    Failed(TestFailureV),
}

impl View for TestOutcome {
    type V = TestOutcomeV;

    open spec fn view(&self) -> TestOutcomeV {
        match self {
            TestOutcome::Passed(i) => TestOutcomeV::Passed(i@),
            TestOutcome::Failed(f) => TestOutcomeV::Failed(f@),
        }
    }
}

/// The matcher's verdict turned into an outcome: a failing verdict
/// keeps the error the virtual machine reported, when there was one,
/// for later rendering.
pub open spec fn spec_outcome_from_verdict(
    exec: TestExecutionV,
    expected: Option<ExpectedFailureV>,
) -> TestOutcomeV {
    match spec_verdict(exec.primary_result, expected) {
        VerdictV::Pass => TestOutcomeV::Passed(exec.run_info),
        VerdictV::Fail(reason) => TestOutcomeV::Failed(
            TestFailureV {
                test_run_info: exec.run_info,
                vm_error: match exec.primary_result {
                    Result::Err(a) => Option::Some(a),
                    Result::Ok(_) => Option::None,
                },
                failure_reason: reason,
            },
        ),
    }
}

/// The adjudication of one test.  A cross-backend disagreement is a
/// `Mismatch` and a property-checker report a `Property` failure; only
/// when neither happened is the outcome matcher consulted.
pub open spec fn spec_adjudicate(
    exec: TestExecutionV,
    expected: Option<ExpectedFailureV>,
) -> TestOutcomeV {
    match exec.cross {
        Option::Some(c) => if c.canonical_primary != c.reference_result {
            TestOutcomeV::Failed(
                TestFailureV {
                    test_run_info: exec.run_info,
                    vm_error: Option::None,
                    failure_reason: FailureReasonV::Mismatch {
                        primary_return_values: c.canonical_primary,
                        reference_return_values: c.reference_result,
                    },
                },
            )
        } else {
            match c.property_failure {
                Option::Some(details) => TestOutcomeV::Failed(
                    TestFailureV {
                        test_run_info: exec.run_info,
                        vm_error: Option::None,
                        failure_reason: FailureReasonV::Property(details),
                    },
                ),
                Option::None => spec_outcome_from_verdict(exec, expected),
            }
        },
        Option::None => spec_outcome_from_verdict(exec, expected),
    }
}

fn outcome_from_verdict(
    run_info: TestRunInfo,
    primary_result: VmResult,
    expected: &Option<crate::errors::ExpectedFailure>,
    Ghost(e): Ghost<TestExecutionV>,
) -> (o: TestOutcome)
    requires
        e.run_info == run_info@,
        e.primary_result == vm_result_view(primary_result),
    ensures
        o@ == spec_outcome_from_verdict(e, spec_expected_failure_view(*expected)),
{
    let verdict = match_outcome(&primary_result, expected);
    match verdict {
        Verdict::Pass => TestOutcome::Passed(run_info),
        Verdict::Fail(reason) => {
            let vm_error = match primary_result {
                Result::Err(a) => Option::Some(a),
                Result::Ok(_) => Option::None,
            };
            TestOutcome::Failed(TestFailure::new(reason, run_info, vm_error))
        },
    }
}

/// Adjudicate one executed test against its declared expectation.
pub fn adjudicate_test(
    execution: TestExecution,
    expected: &Option<crate::errors::ExpectedFailure>,
) -> (o: TestOutcome)
    ensures
        o@ == spec_adjudicate(execution@, spec_expected_failure_view(*expected)),
{
    let ghost e = execution@;
    let TestExecution { run_info, primary_result, cross } = execution;
    match cross {
        Option::Some(c) => {
            let CrossCheck { canonical_primary, reference_result, property_failure } = c;
            if !crate::test_reporter::vm_results_equal(&canonical_primary, &reference_result) {
                TestOutcome::Failed(
                    TestFailure::new(
                        FailureReason::mismatch(canonical_primary, reference_result),
                        run_info,
                        Option::None,
                    ),
                )
            } else if let Option::Some(details) = property_failure {
                TestOutcome::Failed(
                    TestFailure::new(FailureReason::property(details), run_info, Option::None),
                )
            } else {
                outcome_from_verdict(run_info, primary_result, expected, Ghost(e))
            }
        },
        Option::None => outcome_from_verdict(run_info, primary_result, expected, Ghost(e)),
    }
}

/// An exhausted execution bound under no declared expectation is
/// adjudicated a timeout whenever the backends did not disagree and
/// the property checker was silent: the one reading of such a run.
pub proof fn lemma_out_of_gas_adjudicated_timeout(exec: TestExecutionV)
    requires
        exec.primary_result is Err,
        exec.primary_result->Err_0.major_status == crate::errors::MAJOR_STATUS_OUT_OF_GAS,
        exec.cross is Some ==> exec.cross->0.canonical_primary == exec.cross->0.reference_result
            && exec.cross->0.property_failure is None,
    ensures
        spec_adjudicate(exec, Option::None) == TestOutcomeV::Failed(
            TestFailureV {
                test_run_info: exec.run_info,
                vm_error: Option::Some(exec.primary_result->Err_0),
                failure_reason: FailureReasonV::Timeout(crate::test_reporter::timeout_message()),
            },
        ),
{
}

/// Whatever the cross-backend check returned, an exhausted execution
/// bound under no declared expectation is never recorded as an
/// unexpected error: a disagreement is a mismatch, a checker report a
/// property failure, and the matcher itself takes the exhausted bound
/// as a timeout.
pub proof fn lemma_out_of_gas_never_unexpected(exec: TestExecutionV)
    requires
        exec.primary_result is Err,
        exec.primary_result->Err_0.major_status == crate::errors::MAJOR_STATUS_OUT_OF_GAS,
    ensures
        !(spec_adjudicate(exec, Option::None) matches TestOutcomeV::Failed(f)
            && f.failure_reason matches FailureReasonV::UnexpectedError(_, _)),
{
}

/// A test recorded as a cross-backend mismatch was never put to the
/// outcome matcher: its fate is the same whatever failure the test had
/// declared.
pub proof fn lemma_mismatch_skips_matcher(
    exec: TestExecutionV,
    e1: Option<ExpectedFailureV>,
    e2: Option<ExpectedFailureV>,
)
    requires
        exec.cross matches Option::Some(c) && c.canonical_primary != c.reference_result,
    ensures
        spec_adjudicate(exec, e1) == spec_adjudicate(exec, e2),
        spec_adjudicate(exec, e1) matches TestOutcomeV::Failed(f)
            && f.failure_reason matches FailureReasonV::Mismatch { .. },
{
}

/// The streaming status line for a passed test.
pub open spec fn spec_pass_line(module_name: Seq<char>, fn_name: Seq<char>, colorize: bool) -> Seq<
    char,
> {
    "[ "@ + spec_colored(green_code(), "PASS"@, colorize) + "    ] "@ + module_name + "::"@
        + fn_name
}

/// The streaming status line for a failed test.
pub open spec fn spec_fail_line(module_name: Seq<char>, fn_name: Seq<char>, colorize: bool) -> Seq<
    char,
> {
    "[ "@ + spec_colored(red_code(), "FAIL"@, colorize) + "    ] "@ + module_name + "::"@ + fn_name
}

/// The streaming status line for a timed-out test.
pub open spec fn spec_timeout_line(
    module_name: Seq<char>,
    fn_name: Seq<char>,
    colorize: bool,
) -> Seq<char> {
    "[ "@ + spec_colored(yellow_code(), "TIMEOUT"@, colorize) + " ] "@ + module_name + "::"@
        + fn_name
}

fn status_line(tag: String, pad: &str, module_id: &ModuleId, fn_name: &str) -> (r: String)
    ensures
        r@ == "[ "@ + tag@ + pad@ + module_id@.name + "::"@ + fn_name@,
{
    let mut s = String::from_str("[ ");
    s.append(tag.as_str());
    s.append(pad);
    s.append(module_id.name.as_str());
    s.append("::");
    s.append(fn_name);
    assert(s@ =~= "[ "@ + tag@ + pad@ + module_id@.name + "::"@ + fn_name@);
    s
}

pub fn pass_line(module_id: &ModuleId, fn_name: &str, colorize: bool) -> (r: String)
    ensures
        r@ == spec_pass_line(module_id@.name, fn_name@, colorize),
{
    let tag = colored("\u{1b}[1;92m", "PASS", colorize);
    let r = status_line(tag, "    ] ", module_id, fn_name);
    assert(r@ =~= spec_pass_line(module_id@.name, fn_name@, colorize));
    r
}

pub fn fail_line(module_id: &ModuleId, fn_name: &str, colorize: bool) -> (r: String)
    ensures
        r@ == spec_fail_line(module_id@.name, fn_name@, colorize),
{
    let tag = colored("\u{1b}[1;91m", "FAIL", colorize);
    let r = status_line(tag, "    ] ", module_id, fn_name);
    assert(r@ =~= spec_fail_line(module_id@.name, fn_name@, colorize));
    r
}

pub fn timeout_line(module_id: &ModuleId, fn_name: &str, colorize: bool) -> (r: String)
    ensures
        r@ == spec_timeout_line(module_id@.name, fn_name@, colorize),
{
    let tag = colored("\u{1b}[1;93m", "TIMEOUT", colorize);
    let r = status_line(tag, " ] ", module_id, fn_name);
    assert(r@ =~= spec_timeout_line(module_id@.name, fn_name@, colorize));
    r
}

/// The status line a test's outcome earns: `PASS` for a pass,
/// `TIMEOUT` for a failure by timeout, `FAIL` for any other failure.
pub open spec fn spec_line_for(
    outcome: TestOutcomeV,
    module_name: Seq<char>,
    fn_name: Seq<char>,
    colorize: bool,
) -> Seq<char> {
    match outcome {
        TestOutcomeV::Passed(_) => spec_pass_line(module_name, fn_name, colorize),
        TestOutcomeV::Failed(f) => if f.failure_reason matches FailureReasonV::Timeout(_) {
            spec_timeout_line(module_name, fn_name, colorize)
        } else {
            spec_fail_line(module_name, fn_name, colorize)
        },
    }
}

/// The views of a collection of executions.
pub open spec fn execs_view(s: Seq<TestExecution>) -> Seq<TestExecutionV> {
    s.map_values(|e: TestExecution| e@)
}

/// The outcome of the last of a run of tests.
pub open spec fn spec_last_outcome(plan: ModuleTestPlanV, execs: Seq<TestExecutionV>) -> TestOutcomeV
    recommends
        0 < execs.len() <= plan.tests.len(),
{
    spec_adjudicate(execs.last(), plan.tests[execs.len() - 1].1.expected_failure)
}

/// The statistics a module's test run accumulates: each test's
/// adjudicated outcome recorded under the module, in test order.
pub open spec fn spec_module_stats(plan: ModuleTestPlanV, execs: Seq<TestExecutionV>) -> TestStatisticsV
    decreases execs.len(),
{
    if execs.len() <= 0 {
        TestStatisticsV::empty()
    } else {
        let prev = spec_module_stats(plan, execs.drop_last());
        match spec_last_outcome(plan, execs) {
            TestOutcomeV::Passed(info) => TestStatisticsV {
                passed: crate::test_reporter::spec_insert(prev.passed, (plan.module_id, info)),
                failed: prev.failed,
                output: prev.output,
            },
            TestOutcomeV::Failed(f) => TestStatisticsV {
                passed: prev.passed,
                failed: crate::test_reporter::spec_insert(prev.failed, (plan.module_id, f)),
                output: prev.output,
            },
        }
    }
}

/// The status lines a module's test run emits, in test order.
pub open spec fn spec_module_lines(
    plan: ModuleTestPlanV,
    execs: Seq<TestExecutionV>,
    colorize: bool,
) -> Seq<Seq<char>>
    decreases execs.len(),
{
    if execs.len() <= 0 {
        Seq::empty()
    } else {
        spec_module_lines(plan, execs.drop_last(), colorize).push(
            spec_line_for(
                spec_last_outcome(plan, execs),
                plan.module_id.name,
                plan.tests[execs.len() - 1].0,
                colorize,
            ),
        )
    }
}

/// Test state common to all tests.
#[derive(Debug)]
pub struct SharedTestingConfig {
    /// Whether an aborting test's execution state is kept for the
    /// report.  The stripping itself happens at the backend boundary,
    /// before executions are handed in here.
    pub report_stacktrace_on_abort: bool,
    pub execution_bound: u64,
    pub check_stackless_vm: bool,
    pub verbose: bool,
    pub colorize: bool,
    pub source_files: Vec<String>,
    pub named_address_values: Vec<(String, u128)>,
    pub starting_storage_state: TestStorage,
}

impl SharedTestingConfig {
    /// Run one module's tests: adjudicate each already-executed test
    /// in declaration order, append its status line, and record its
    /// outcome into fresh statistics for this module.
    pub fn exec_module_tests(
        &self,
        test_plan: &ModuleTestPlan,
        executions: Vec<TestExecution>,
        lines: &mut Vec<String>,
    ) -> (stats: TestStatistics)
        requires
            executions@.len() == test_plan.tests@.len(),
            forall|i: int|
                0 <= i < executions@.len() ==> execution_wf(#[trigger] execs_view(executions@)[i]),
            forall|i: int|
                0 <= i < executions@.len() ==> ((#[trigger] execs_view(executions@)[i].cross)
                    is Some <==> self.check_stackless_vm),
        ensures
            stats@ == spec_module_stats(test_plan@, execs_view(executions@)),
            final(lines).deep_view() == old(lines).deep_view() + spec_module_lines(
                test_plan@,
                execs_view(executions@),
                self.colorize,
            ),
    {
        let ghost full = execs_view(executions@);
        let ghost lines0 = old(lines).deep_view();
        let mut executions = executions;
        let mut stats = TestStatistics::new();
        let n = test_plan.tests.len();
        let mut i: usize = 0;
        proof {
            assert(stats@ == spec_module_stats(test_plan@, full.take(0)));
            assert(lines.deep_view() =~= lines0 + spec_module_lines(
                test_plan@,
                full.take(0),
                self.colorize,
            ));
        }
        while i < n
            invariant
                n == test_plan.tests@.len(),
                i <= n,
                full.len() == n,
                executions@.len() == n - i,
                forall|j: int| 0 <= j < executions@.len() ==> execs_view(executions@)[j] == full[i
                    + j],
                stats@ == spec_module_stats(test_plan@, full.take(i as int)),
                lines.deep_view() == lines0 + spec_module_lines(
                    test_plan@,
                    full.take(i as int),
                    self.colorize,
                ),
            decreases n - i,
        {
            let ghost prev_execs = executions@;
            let execution = executions.remove(0);
            proof {
                assert(execs_view(prev_execs)[0] == prev_execs[0]@);
                assert(execution@ == full[i as int]);
                assert forall|j: int| 0 <= j < executions@.len() implies #[trigger] execs_view(
                    executions@,
                )[j] == full[i + 1 + j] by {
                    assert(executions@[j] == prev_execs[j + 1]);
                    assert(execs_view(executions@)[j] == executions@[j]@);
                    assert(execs_view(prev_execs)[j + 1] == prev_execs[j + 1]@);
                }
            }
            let entry = &test_plan.tests[i];
            let fn_name = entry.0.as_str();
            proof {
                assert(test_plan@.tests[i as int] == (entry.0@, entry.1@));
                assert(spec_expected_failure_view(entry.1.expected_failure) == test_plan@.tests[
                    i as int].1.expected_failure);
            }
            let outcome = adjudicate_test(execution, &entry.1.expected_failure);
            proof {
                assert(full.take(i + 1).drop_last() =~= full.take(i as int));
                assert(full.take(i + 1).last() == full[i as int]);
                assert(outcome@ == spec_last_outcome(test_plan@, full.take(i + 1)));
            }
            match outcome {
                TestOutcome::Passed(info) => {
                    push_line(lines, pass_line(&test_plan.module_id, fn_name, self.colorize));
                    stats.test_success(info, test_plan);
                },
                TestOutcome::Failed(f) => {
                    if f.failure_reason.is_timeout() {
                        push_line(
                            lines,
                            timeout_line(&test_plan.module_id, fn_name, self.colorize),
                        );
                    } else {
                        push_line(lines, fail_line(&test_plan.module_id, fn_name, self.colorize));
                    }
                    stats.test_failure(f, test_plan);
                },
            }
            proof {
                assert(stats@ == spec_module_stats(test_plan@, full.take(i + 1)));
                assert(lines.deep_view() =~= lines0 + spec_module_lines(
                    test_plan@,
                    full.take(i + 1),
                    self.colorize,
                ));
            }
            i += 1;
        }
        proof {
            assert(full.take(n as int) =~= full);
        }
        stats
    }
}

/// The views of the per-module execution collections.
pub open spec fn execss_view(s: Seq<Vec<TestExecution>>) -> Seq<Seq<TestExecutionV>> {
    s.map_values(|v: Vec<TestExecution>| execs_view(v@))
}

/// Executions fit a plan: one collection per module, one execution
/// per test, each well-formed, each cross-checked exactly when
/// cross-backend checking is on.
pub open spec fn plan_executions_wf(
    modules: Seq<ModuleTestPlanV>,
    execs: Seq<Seq<TestExecutionV>>,
    check_stackless_vm: bool,
) -> bool {
    &&& execs.len() == modules.len()
    &&& forall|m: int| 0 <= m < execs.len() ==> (#[trigger] execs[m]).len() == modules[m].tests.len()
    &&& forall|m: int, i: int|
        0 <= m < execs.len() && 0 <= i < execs[m].len() ==> execution_wf(#[trigger] execs[m][i])
    &&& forall|m: int, i: int|
        0 <= m < execs.len() && 0 <= i < execs[m].len() ==> ((#[trigger] execs[m][i].cross)
            is Some <==> check_stackless_vm)
}

/// The statistics of a whole run: every module's statistics, merged
/// in plan order.
pub open spec fn spec_plan_stats(
    modules: Seq<ModuleTestPlanV>,
    execs: Seq<Seq<TestExecutionV>>,
) -> TestStatisticsV
    decreases execs.len(),
{
    if execs.len() == 0 {
        TestStatisticsV::empty()
    } else {
        spec_plan_stats(modules, execs.drop_last()).merge(
            spec_module_stats(modules[execs.len() - 1], execs.last()),
        )
    }
}

/// The status lines of a whole run in plan order, one module after
/// the other.
pub open spec fn spec_plan_lines(
    modules: Seq<ModuleTestPlanV>,
    execs: Seq<Seq<TestExecutionV>>,
    colorize: bool,
) -> Seq<Seq<char>>
    decreases execs.len(),
{
    if execs.len() == 0 {
        Seq::empty()
    } else {
        spec_plan_lines(modules, execs.drop_last(), colorize) + spec_module_lines(
            modules[execs.len() - 1],
            execs.last(),
            colorize,
        )
    }
}

/// The whole runner: the worker count, the shared configuration, and
/// the plan under test.
#[derive(Debug)]
pub struct TestRunner {
    pub num_threads: usize,
    pub testing_config: SharedTestingConfig,
    pub tests: TestPlan,
}

impl TestRunner {
    /// Adjudicate a whole run from the executions the backends
    /// produced, module by module in plan order, and merge every
    /// module's statistics.  The merged outcome is a function of the
    /// plan and the executions alone: any schedule that executes the
    /// same tests the same way yields the same statistics.
    pub fn run(self, executions: Vec<Vec<TestExecution>>, lines: &mut Vec<String>) -> (r:
        TestResults)
        requires
            plan_executions_wf(
                self.tests@.module_tests,
                execss_view(executions@),
                self.testing_config.check_stackless_vm,
            ),
            plan_run_named(self.tests@.module_tests, execss_view(executions@)),
        ensures
            r.final_statistics@ == spec_plan_stats(
                self.tests@.module_tests,
                execss_view(executions@),
            ),
            forall|m: int, i: int|
                0 <= m < self.tests@.module_tests.len() && 0 <= i < execss_view(executions@)[m].len()
                    ==> (passed_has(
                    r.final_statistics@,
                    (#[trigger] self.tests@.module_tests[m]).module_id,
                    self.tests@.module_tests[m].tests[i].0,
                ) <==> !failed_has(
                    r.final_statistics@,
                    self.tests@.module_tests[m].module_id,
                    #[trigger] self.tests@.module_tests[m].tests[i].0,
                )),
            r.test_plan == self.tests,
            final(lines).deep_view() == old(lines).deep_view() + spec_plan_lines(
                self.tests@.module_tests,
                execss_view(executions@),
                self.testing_config.colorize,
            ),
    {
        let ghost full = execss_view(executions@);
        let ghost mods = self.tests@.module_tests;
        let ghost lines0 = old(lines).deep_view();
        let mut executions = executions;
        let mut stats = TestStatistics::new();
        let n = self.tests.module_tests.len();
        let mut m: usize = 0;
        proof {
            assert(self.tests.module_tests@.map_values(|p: ModuleTestPlan| p@).len() == n);
            assert(stats@ =~= spec_plan_stats(mods, full.take(0)));
            assert(lines.deep_view() =~= lines0 + spec_plan_lines(mods, full.take(0), self
                .testing_config
                .colorize));
        }
        while m < n
            invariant
                n == self.tests.module_tests@.len(),
                mods == self.tests@.module_tests,
                mods.len() == n,
                full.len() == n,
                plan_executions_wf(mods, full, self.testing_config.check_stackless_vm),
                executions@.len() == n - m,
                forall|j: int|
                    0 <= j < executions@.len() ==> #[trigger] execss_view(executions@)[j] == full[m
                        + j],
                stats@ == spec_plan_stats(mods, full.take(m as int)),
                lines.deep_view() == lines0 + spec_plan_lines(
                    mods,
                    full.take(m as int),
                    self.testing_config.colorize,
                ),
            decreases n - m,
        {
            let ghost prev_execs = executions@;
            let module_executions = executions.remove(0);
            proof {
                assert(execss_view(prev_execs)[0] == execs_view(prev_execs[0]@));
                assert(execs_view(module_executions@) == full[m as int]);
                assert forall|j: int| 0 <= j < executions@.len() implies #[trigger] execss_view(
                    executions@,
                )[j] == full[m + 1 + j] by {
                    assert(executions@[j] == prev_execs[j + 1]);
                    assert(execss_view(executions@)[j] == execs_view(executions@[j]@));
                    assert(execss_view(prev_execs)[j + 1] == execs_view(prev_execs[j + 1]@));
                }
            }
            let module_plan = &self.tests.module_tests[m];
            proof {
                assert(self.tests@.module_tests[m as int] == module_plan@);
                assert(full[m as int].len() == mods[m as int].tests.len());
                assert forall|i: int|
                    0 <= i < module_executions@.len() implies execution_wf(
                    #[trigger] execs_view(module_executions@)[i],
                ) by {
                    assert(execs_view(module_executions@)[i] == full[m as int][i]);
                }
                assert forall|i: int|
                    0 <= i < module_executions@.len() implies ((#[trigger] execs_view(
                    module_executions@,
                )[i].cross) is Some <==> self.testing_config.check_stackless_vm) by {
                    assert(execs_view(module_executions@)[i] == full[m as int][i]);
                }
            }
            let module_stats = self.testing_config.exec_module_tests(
                module_plan,
                module_executions,
                lines,
            );
            stats = stats.combine(module_stats);
            proof {
                assert(full.take(m + 1).drop_last() =~= full.take(m as int));
                assert(full.take(m + 1).last() == full[m as int]);
                assert(stats@ == spec_plan_stats(mods, full.take(m + 1)));
                assert(lines.deep_view() =~= lines0 + spec_plan_lines(
                    mods,
                    full.take(m + 1),
                    self.testing_config.colorize,
                ));
            }
            m += 1;
        }
        proof {
            assert(full.take(n as int) =~= full);
            assert forall|mm: int, i: int|
                0 <= mm < mods.len() && 0 <= i < full[mm].len() implies (passed_has(
                stats@,
                (#[trigger] mods[mm]).module_id,
                mods[mm].tests[i].0,
            ) <==> !failed_has(stats@, mods[mm].module_id, #[trigger] mods[mm].tests[i].0)) by {
                lemma_run_partition(mods, full, mm, i);
            }
        }
        TestResults::new(stats, self.tests)
    }
}

/// Whether a test survives filtering: its qualified name contains the
/// given byte pattern.
pub open spec fn test_kept(module_name: Seq<char>, t: (Seq<char>, TestCaseV), needle: Seq<u8>) -> bool {
    bytes_contain(vstd::utf8::encode_utf8(spec_qualified(module_name, t.0)), needle)
}

/// The tests of a module that survive filtering, in order.
pub open spec fn spec_kept_tests(
    module_name: Seq<char>,
    tests: Seq<(Seq<char>, TestCaseV)>,
    needle: Seq<u8>,
) -> Seq<(Seq<char>, TestCaseV)>
    decreases tests.len(),
{
    if tests.len() == 0 {
        Seq::empty()
    } else {
        let prev = spec_kept_tests(module_name, tests.drop_last(), needle);
        if test_kept(module_name, tests.last(), needle) {
            prev.push(tests.last())
        } else {
            prev
        }
    }
}

/// One module's plan after filtering: untouched when the module's own
/// name contains the pattern, otherwise restricted to the tests whose
/// qualified name does.
pub open spec fn spec_filter_module(m: ModuleTestPlanV, needle: Seq<u8>) -> ModuleTestPlanV {
    if bytes_contain(vstd::utf8::encode_utf8(m.module_id.name), needle) {
        m
    } else {
        ModuleTestPlanV {
            module_id: m.module_id,
            tests: spec_kept_tests(m.module_id.name, m.tests, needle),
        }
    }
}

pub open spec fn spec_filter_plan(
    modules: Seq<ModuleTestPlanV>,
    needle: Seq<u8>,
) -> Seq<ModuleTestPlanV> {
    modules.map_values(|m: ModuleTestPlanV| spec_filter_module(m, needle))
}

/// Every test that filtering keeps satisfies the filter.
proof fn lemma_kept_tests_pred(
    module_name: Seq<char>,
    tests: Seq<(Seq<char>, TestCaseV)>,
    needle: Seq<u8>,
)
    ensures
        forall|i: int|
            0 <= i < spec_kept_tests(module_name, tests, needle).len() ==> test_kept(
                module_name,
                #[trigger] spec_kept_tests(module_name, tests, needle)[i],
                needle,
            ),
    decreases tests.len(),
{
    if tests.len() > 0 {
        lemma_kept_tests_pred(module_name, tests.drop_last(), needle);
        let whole = spec_kept_tests(module_name, tests, needle);
        let prev = spec_kept_tests(module_name, tests.drop_last(), needle);
        assert forall|i: int| 0 <= i < whole.len() implies test_kept(
            module_name,
            #[trigger] whole[i],
            needle,
        ) by {
            if test_kept(module_name, tests.last(), needle) {
                assert(whole == prev.push(tests.last()));
                if i < prev.len() {
                    assert(whole[i] == prev[i]);
                } else {
                    assert(whole[i] == tests.last());
                }
            } else {
                assert(whole == prev);
            }
        }
    }
}

/// Filtering keeps a sequence whole when every member already
/// satisfies the filter.
proof fn lemma_kept_tests_all(
    module_name: Seq<char>,
    tests: Seq<(Seq<char>, TestCaseV)>,
    needle: Seq<u8>,
)
    requires
        forall|i: int| 0 <= i < tests.len() ==> test_kept(module_name, #[trigger] tests[i], needle),
    ensures
        spec_kept_tests(module_name, tests, needle) == tests,
    decreases tests.len(),
{
    if tests.len() == 0 {
        assert(spec_kept_tests(module_name, tests, needle) =~= tests);
    } else {
        lemma_kept_tests_all(module_name, tests.drop_last(), needle);
        assert(test_kept(module_name, tests.last(), needle));
        assert(spec_kept_tests(module_name, tests, needle) =~= tests);
    }
}

/// Restricting a plan to one pattern twice leaves exactly what one
/// pass leaves: `filter` is idempotent.
pub proof fn lemma_filter_plan_idempotent(modules: Seq<ModuleTestPlanV>, needle: Seq<u8>)
    ensures
        spec_filter_plan(spec_filter_plan(modules, needle), needle) == spec_filter_plan(
            modules,
            needle,
        ),
{
    let once = spec_filter_plan(modules, needle);
    assert forall|i: int| 0 <= i < once.len() implies #[trigger] spec_filter_plan(once, needle)[i]
        == once[i] by {
        assert(once[i] == spec_filter_module(modules[i], needle));
        let m = modules[i];
        let f = spec_filter_module(m, needle);
        if !bytes_contain(vstd::utf8::encode_utf8(m.module_id.name), needle) {
            lemma_kept_tests_pred(m.module_id.name, m.tests, needle);
            lemma_kept_tests_all(m.module_id.name, f.tests, needle);
            assert(spec_filter_module(f, needle) =~= f);
        }
    }
    assert(spec_filter_plan(once, needle) =~= once);
}

impl TestRunner {
    /// Restrict the plan to the tests whose qualified name contains
    /// the given pattern; a module whose own name contains it keeps
    /// all its tests.
    pub fn filter(&mut self, test_name_slice: &str)
        ensures
            final(self).tests@.module_tests == spec_filter_plan(
                old(self).tests@.module_tests,
                test_name_slice.spec_bytes(),
            ),
            final(self).tests.modules == old(self).tests.modules,
            final(self).testing_config == old(self).testing_config,
            final(self).num_threads == old(self).num_threads,
    {
        let ghost needle = test_name_slice.spec_bytes();
        let ghost orig = old(self).tests@.module_tests;
        let mut old_modules: Vec<ModuleTestPlan> = Vec::new();
        core::mem::swap(&mut self.tests.module_tests, &mut old_modules);
        let mut new_modules: Vec<ModuleTestPlan> = Vec::new();
        let n = old_modules.len();
        let mut m: usize = 0;
        proof {
            assert(old_modules@.map_values(|p: ModuleTestPlan| p@) == orig);
        }
        while m < n
            invariant
                n == old_modules@.len(),
                old_modules@.map_values(|p: ModuleTestPlan| p@) == orig,
                orig.len() == n,
                needle == test_name_slice.spec_bytes(),
                m <= n,
                new_modules@.len() == m,
                forall|j: int|
                    0 <= j < m ==> (#[trigger] new_modules@[j])@ == spec_filter_module(
                        orig[j],
                        needle,
                    ),
            decreases n - m,
        {
            let module_plan = &old_modules[m];
            proof {
                assert(orig[m as int] == old_modules@.map_values(|p: ModuleTestPlan| p@)[m as int]);
                assert(orig[m as int] == module_plan@);
            }
            let mut mp = ModuleTestPlan {
                module_id: module_plan.module_id.duplicate(),
                tests: Vec::new(),
            };
            let module_match = str_contains(module_plan.module_id.name.as_str(), test_name_slice);
            let tests = &module_plan.tests;
            let tn = tests.len();
            let ghost old_tests_v = module_plan@.tests;
            let mut i: usize = 0;
            proof {
                assert(old_tests_v.take(0) =~= Seq::<(Seq<char>, TestCaseV)>::empty());
                assert(mp.tests@.map_values(|t: (String, TestCase)| (t.0@, t.1@))
                    =~= old_tests_v.take(0));
            }
            while i < tn
                invariant
                    tn == tests@.len(),
                    tests@ == module_plan.tests@,
                    old_tests_v == module_plan@.tests,
                    old_tests_v.len() == tn,
                    needle == test_name_slice.spec_bytes(),
                    module_match == bytes_contain(
                        vstd::utf8::encode_utf8(module_plan@.module_id.name),
                        needle,
                    ),
                    i <= tn,
                    mp.module_id@ == module_plan@.module_id,
                    module_match ==> mp.tests@.map_values(|t: (String, TestCase)| (t.0@, t.1@))
                        == old_tests_v.take(i as int),
                    !module_match ==> mp.tests@.map_values(|t: (String, TestCase)| (t.0@, t.1@))
                        == spec_kept_tests(
                        module_plan@.module_id.name,
                        old_tests_v.take(i as int),
                        needle,
                    ),
                decreases tn - i,
            {
                let entry = &tests[i];
                proof {
                    assert(old_tests_v[i as int] == module_plan@.tests[i as int]);
                    assert(old_tests_v[i as int] == (entry.0@, entry.1@));
                }
                let keep = if module_match {
                    true
                } else {
                    let full_name = qualified_name(&module_plan.module_id, entry.0.as_str());
                    let r = str_contains(full_name.as_str(), test_name_slice);
                    proof {
                        assert(r == test_kept(
                            module_plan@.module_id.name,
                            old_tests_v[i as int],
                            needle,
                        ));
                    }
                    r
                };
                proof {
                    assert(old_tests_v.take(i + 1).drop_last() =~= old_tests_v.take(i as int));
                    assert(old_tests_v.take(i + 1).last() == old_tests_v[i as int]);
                }
                if keep {
                    let c0 = entry.0.clone();
                    let c1 = entry.1.duplicate();
                    let ghost prev = mp.tests@;
                    mp.tests.push((c0, c1));
                    proof {
                        assert(mp.tests@ == prev.push((c0, c1)));
                        assert(c0@ == entry.0@ && c1@ == entry.1@);
                        if module_match {
                            assert(mp.tests@.map_values(|t: (String, TestCase)| (t.0@, t.1@))
                                =~= old_tests_v.take(i + 1));
                        } else {
                            assert(mp.tests@.map_values(|t: (String, TestCase)| (t.0@, t.1@))
                                =~= spec_kept_tests(
                                module_plan@.module_id.name,
                                old_tests_v.take(i + 1),
                                needle,
                            ));
                        }
                    }
                } else {
                    proof {
                        assert(mp.tests@.map_values(|t: (String, TestCase)| (t.0@, t.1@))
                            =~= spec_kept_tests(
                            module_plan@.module_id.name,
                            old_tests_v.take(i + 1),
                            needle,
                        ));
                    }
                }
                i += 1;
            }
            proof {
                assert(old_tests_v.take(tn as int) =~= old_tests_v);
                if module_match {
                    assert(mp@.tests =~= old_tests_v);
                } else {
                    assert(mp@.tests == spec_kept_tests(
                        module_plan@.module_id.name,
                        old_tests_v,
                        needle,
                    ));
                }
                assert(mp@ =~= spec_filter_module(orig[m as int], needle));
            }
            new_modules.push(mp);
            m += 1;
        }
        self.tests.module_tests = new_modules;
        proof {
            assert forall|j: int| 0 <= j < n implies #[trigger] spec_filter_plan(orig, needle)[j]
                == self.tests@.module_tests[j] by {
                assert(spec_filter_plan(orig, needle)[j] == spec_filter_module(orig[j], needle));
                assert(self.tests@.module_tests[j] == new_modules@[j]@);
            }
            assert(self.tests@.module_tests =~= spec_filter_plan(orig, needle));
        }
    }
}

/// The adjudicated outcome of the i-th test of a module's run.
pub open spec fn spec_outcome_at(
    plan: ModuleTestPlanV,
    execs: Seq<TestExecutionV>,
    i: int,
) -> TestOutcomeV {
    spec_adjudicate(execs[i], plan.tests[i].1.expected_failure)
}

/// A module's executions carry their tests' names, and the tests'
/// names do not repeat.
pub open spec fn module_run_named(plan: ModuleTestPlanV, execs: Seq<TestExecutionV>) -> bool {
    &&& execs.len() <= plan.tests.len()
    &&& forall|i: int|
        0 <= i < execs.len() ==> (#[trigger] execs[i]).run_info.function_ident == plan.tests[i].0
    &&& forall|i: int, j: int|
        0 <= i < j < execs.len() ==> (#[trigger] plan.tests[i]).0 != (#[trigger] plan.tests[j]).0
}

/// Whether the statistics hold a passed record under this test name.
pub open spec fn passed_has_name(stats: TestStatisticsV, name: Seq<char>) -> bool {
    exists|k: int|
        0 <= k < stats.passed.len() && (#[trigger] stats.passed[k]).1.function_ident == name
}

/// Whether the statistics hold a failed record under this test name.
pub open spec fn failed_has_name(stats: TestStatisticsV, name: Seq<char>) -> bool {
    exists|k: int|
        0 <= k < stats.failed.len() && (#[trigger] stats.failed[k]).1.test_run_info.function_ident
            == name
}

#[verifier::rlimit(100)]
#[verifier::spinoff_prover]
proof fn lemma_module_stats_records(plan: ModuleTestPlanV, execs: Seq<TestExecutionV>)
    requires
        module_run_named(plan, execs),
    ensures
        forall|k: int|
            #![trigger spec_module_stats(plan, execs).passed[k]]
            0 <= k < spec_module_stats(plan, execs).passed.len() ==> exists|j: int|
                0 <= j < execs.len() && spec_module_stats(plan, execs).passed[k] == (
                plan.module_id,
                #[trigger] execs[j].run_info,
                ) && spec_outcome_at(plan, execs, j) is Passed,
        forall|k: int|
            #![trigger spec_module_stats(plan, execs).failed[k]]
            0 <= k < spec_module_stats(plan, execs).failed.len() ==> exists|j: int|
                0 <= j < execs.len() && spec_module_stats(plan, execs).failed[k].1.test_run_info
                    == #[trigger] execs[j].run_info && spec_outcome_at(plan, execs, j) is Failed,
        forall|i: int|
            0 <= i < execs.len() ==> ((spec_outcome_at(plan, execs, i) is Passed) <==> passed_has_name(
                spec_module_stats(plan, execs),
                plan.tests[i].0,
            )),
        forall|i: int|
            0 <= i < execs.len() ==> ((spec_outcome_at(plan, execs, i) is Failed) <==> failed_has_name(
                spec_module_stats(plan, execs),
                plan.tests[i].0,
            )),
    decreases execs.len(),
{
    if execs.len() == 0 {
    } else {
        let prefix = execs.drop_last();
        lemma_module_stats_records(plan, prefix);
        let n = execs.len() - 1;
        let whole = spec_module_stats(plan, execs);
        let prev = spec_module_stats(plan, prefix);
        assert(forall|i: int| 0 <= i < n ==> execs[i] == prefix[i]);
        assert(forall|i: int|
            0 <= i < n ==> spec_outcome_at(plan, execs, i) == spec_outcome_at(plan, prefix, i));
        let last_outcome = spec_outcome_at(plan, execs, n);
        assert(spec_last_outcome(plan, execs) == last_outcome);
        let pushed_p = last_outcome is Passed && !prev.passed.contains(
            (plan.module_id, execs[n].run_info),
        );
        let pushed_f = last_outcome is Failed && !prev.failed.contains(
            (plan.module_id, last_outcome->Failed_0),
        );
        lemma_module_stats_shape(plan, prefix);
        if last_outcome is Passed {
            lemma_same_module_insert_is_push(
                prev.passed,
                (plan.module_id, last_outcome->Passed_0),
                plan.module_id,
            );
        } else {
            lemma_same_module_insert_is_push(
                prev.failed,
                (plan.module_id, last_outcome->Failed_0),
                plan.module_id,
            );
        }
        assert forall|k: int|
            #![trigger whole.passed[k]]
            0 <= k < whole.passed.len() implies exists|j: int|
            0 <= j < execs.len() && whole.passed[k] == (
            plan.module_id,
            #[trigger] execs[j].run_info,
            ) && spec_outcome_at(plan, execs, j) is Passed by {
            if pushed_p && k == whole.passed.len() - 1 {
                assert(whole.passed[k] == (plan.module_id, execs[n].run_info));
            } else {
                assert(whole.passed[k] == prev.passed[k]);
                let j = choose|j: int|
                    0 <= j < prefix.len() && prev.passed[k] == (
                    plan.module_id,
                    #[trigger] prefix[j].run_info,
                    ) && spec_outcome_at(plan, prefix, j) is Passed;
                assert(whole.passed[k] == (plan.module_id, execs[j].run_info)
                    && spec_outcome_at(plan, execs, j) is Passed);
            }
        }
        assert forall|k: int|
            #![trigger whole.failed[k]]
            0 <= k < whole.failed.len() implies exists|j: int|
            0 <= j < execs.len() && whole.failed[k].1.test_run_info == #[trigger] execs[j].run_info
            && spec_outcome_at(plan, execs, j) is Failed by {
            if pushed_f && k == whole.failed.len() - 1 {
                assert(whole.failed[k].1.test_run_info == execs[n].run_info);
            } else {
                assert(whole.failed[k] == prev.failed[k]);
                let j = choose|j: int|
                    0 <= j < prefix.len() && (prev.failed[k]).1.test_run_info == #[trigger] prefix[
                        j
                    ].run_info && spec_outcome_at(plan, prefix, j) is Failed;
                assert(whole.failed[k].1.test_run_info == execs[j].run_info && spec_outcome_at(
                    plan,
                    execs,
                    j,
                ) is Failed);
            }
        }
        assert forall|i: int| 0 <= i < execs.len() implies ((spec_outcome_at(plan, execs, i)
            is Passed) <==> passed_has_name(whole, plan.tests[i].0)) by {
            let name = plan.tests[i].0;
            if spec_outcome_at(plan, execs, i) is Passed {
                if i < n {
                    assert(passed_has_name(prev, name));
                    let k = choose|k: int|
                        0 <= k < prev.passed.len() && (#[trigger] prev.passed[k]).1.function_ident
                            == name;
                    assert(whole.passed[k].1.function_ident == name);
                } else {
                    if pushed_p {
                        assert(whole.passed[whole.passed.len() - 1].1.function_ident == name);
                    } else {
                        let rec = (plan.module_id, execs[n].run_info);
                        assert(prev.passed.contains(rec));
                        let k = choose|k: int|
                            0 <= k < prev.passed.len() && prev.passed[k] == rec;
                        assert(whole.passed[k].1.function_ident == name);
                    }
                }
            }
            if passed_has_name(whole, name) {
                let k = choose|k: int|
                    0 <= k < whole.passed.len() && (#[trigger] whole.passed[k]).1.function_ident
                        == name;
                let j = choose|j: int|
                    0 <= j < execs.len() && whole.passed[k] == (
                    plan.module_id,
                    #[trigger] execs[j].run_info,
                    ) && spec_outcome_at(plan, execs, j) is Passed;
                assert(plan.tests[j].0 == name);
                assert(j == i);
            }
        }
        assert forall|i: int| 0 <= i < execs.len() implies ((spec_outcome_at(plan, execs, i)
            is Failed) <==> failed_has_name(whole, plan.tests[i].0)) by {
            let name = plan.tests[i].0;
            if spec_outcome_at(plan, execs, i) is Failed {
                if i < n {
                    assert(failed_has_name(prev, name));
                    let k = choose|k: int|
                        0 <= k < prev.failed.len() && (#[trigger] prev.failed[k]).1.test_run_info.function_ident
                            == name;
                    assert(whole.failed[k].1.test_run_info.function_ident == name);
                } else {
                    if pushed_f {
                        assert(whole.failed[whole.failed.len() - 1].1.test_run_info.function_ident
                            == name);
                    } else {
                        let rec = (plan.module_id, last_outcome->Failed_0);
                        assert(prev.failed.contains(rec));
                        let k = choose|k: int|
                            0 <= k < prev.failed.len() && prev.failed[k] == rec;
                        assert(whole.failed[k].1.test_run_info.function_ident == name);
                    }
                }
            }
            if failed_has_name(whole, name) {
                let k = choose|k: int|
                    0 <= k < whole.failed.len() && (#[trigger] whole.failed[k]).1.test_run_info.function_ident
                        == name;
                let j = choose|j: int|
                    0 <= j < execs.len() && whole.failed[k].1.test_run_info == #[trigger] execs[
                        j
                    ].run_info && spec_outcome_at(plan, execs, j) is Failed;
                assert(plan.tests[j].0 == name);
                assert(j == i);
            }
        }
    }
}

/// Every test of a module's run lands in exactly one of the passed
/// and the failed records.
pub proof fn lemma_test_in_exactly_one(
    plan: ModuleTestPlanV,
    execs: Seq<TestExecutionV>,
    i: int,
)
    requires
        module_run_named(plan, execs),
        0 <= i < execs.len(),
    ensures
        passed_has_name(spec_module_stats(plan, execs), plan.tests[i].0) <==> !failed_has_name(
            spec_module_stats(plan, execs),
            plan.tests[i].0,
        ),
{
    lemma_module_stats_records(plan, execs);
    assert(spec_outcome_at(plan, execs, i) is Passed || spec_outcome_at(plan, execs, i)
        is Failed);
}

/// What one module's statistics look like: every record carries the
/// module's own identifier, no record repeats, and there is no
/// per-test output.
proof fn lemma_module_stats_shape(plan: ModuleTestPlanV, execs: Seq<TestExecutionV>)
    ensures
        spec_module_stats(plan, execs).wf(),
        forall|k: int|
            0 <= k < spec_module_stats(plan, execs).passed.len() ==> (#[trigger] spec_module_stats(
                plan,
                execs,
            ).passed[k]).0 == plan.module_id,
        forall|k: int|
            0 <= k < spec_module_stats(plan, execs).failed.len() ==> (#[trigger] spec_module_stats(
                plan,
                execs,
            ).failed[k]).0 == plan.module_id,
        spec_module_stats(plan, execs).output.len() == 0,
    decreases execs.len(),
{
    if execs.len() > 0 {
        lemma_module_stats_shape(plan, execs.drop_last());
        let whole = spec_module_stats(plan, execs);
        let prev = spec_module_stats(plan, execs.drop_last());
        match spec_last_outcome(plan, execs) {
            TestOutcomeV::Passed(info) => {
                let rec = (plan.module_id, info);
                lemma_same_module_insert_is_push(prev.passed, rec, plan.module_id);
                crate::test_reporter::lemma_insert_no_dup_pub(
                    prev.passed,
                    (plan.module_id, info),
                );
                assert forall|k: int| 0 <= k < whole.passed.len() implies (#[trigger] whole.passed[
                    k]).0 == plan.module_id by {
                    if k < prev.passed.len() {
                        assert(whole.passed[k] == prev.passed[k]);
                    }
                }
                assert(crate::test_reporter::sorted_by_module(whole.passed)) by {
                    lemma_same_module_sorted(whole.passed, plan.module_id);
                }
            },
            TestOutcomeV::Failed(f) => {
                let rec = (plan.module_id, f);
                lemma_same_module_insert_is_push(prev.failed, rec, plan.module_id);
                crate::test_reporter::lemma_insert_no_dup_pub(prev.failed, (plan.module_id, f));
                assert forall|k: int| 0 <= k < whole.failed.len() implies (#[trigger] whole.failed[
                    k]).0 == plan.module_id by {
                    if k < prev.failed.len() {
                        assert(whole.failed[k] == prev.failed[k]);
                    }
                }
                assert(crate::test_reporter::sorted_by_module(whole.failed)) by {
                    lemma_same_module_sorted(whole.failed, plan.module_id);
                }
            },
        }
    }
}

/// Inserting a record of the module every present record already
/// carries appends it: nothing orders above it.
proof fn lemma_same_module_insert_is_push<T>(
    s: Seq<(ModuleIdV, T)>,
    x: (ModuleIdV, T),
    m: ModuleIdV,
)
    requires
        x.0 == m,
        forall|k: int| 0 <= k < s.len() ==> (#[trigger] s[k]).0 == m,
    ensures
        crate::test_reporter::spec_insert(s, x) == if s.contains(x) {
            s
        } else {
            s.push(x)
        },
{
    if !s.contains(x) {
        if s.len() == 0 {
            assert(crate::test_reporter::spec_place(s, x) =~= s.push(x));
        } else {
            assert(s[s.len() - 1].0 == m);
            crate::errors::lemma_module_id_lt_irrefl(m);
            assert(!crate::errors::module_id_lt(x.0, s.last().0));
        }
    }
}

/// Records that all carry one module are ordered.
proof fn lemma_same_module_sorted<T>(s: Seq<(ModuleIdV, T)>, m: ModuleIdV)
    requires
        forall|k: int| 0 <= k < s.len() ==> (#[trigger] s[k]).0 == m,
    ensures
        crate::test_reporter::sorted_by_module(s),
{
    crate::errors::lemma_module_id_lt_irrefl(m);
}

/// Whether the merged statistics hold a passed record of this module
/// and test.
pub open spec fn passed_has(
    stats: TestStatisticsV,
    module_id: ModuleIdV,
    name: Seq<char>,
) -> bool {
    exists|k: int|
        0 <= k < stats.passed.len() && (#[trigger] stats.passed[k]).0 == module_id
            && stats.passed[k].1.function_ident == name
}

/// Whether the merged statistics hold a failed record of this module
/// and test.
pub open spec fn failed_has(
    stats: TestStatisticsV,
    module_id: ModuleIdV,
    name: Seq<char>,
) -> bool {
    exists|k: int|
        0 <= k < stats.failed.len() && (#[trigger] stats.failed[k]).0 == module_id
            && stats.failed[k].1.test_run_info.function_ident == name
}

/// A whole run is named: one execution collection per module, each
/// carrying its tests' names, with no repeated test name in a module
/// and no repeated module identifier in the plan.
pub open spec fn plan_run_named(
    modules: Seq<ModuleTestPlanV>,
    execs: Seq<Seq<TestExecutionV>>,
) -> bool {
    &&& execs.len() == modules.len()
    &&& forall|m: int|
        0 <= m < execs.len() ==> module_run_named(#[trigger] modules[m], execs[m]) && execs[m].len()
            == modules[m].tests.len()
    &&& forall|m1: int, m2: int|
        0 <= m1 < m2 < modules.len() ==> (#[trigger] modules[m1]).module_id != (
        #[trigger] modules[m2]).module_id
}

/// Every test of a whole run lands in exactly one of the final
/// statistics' passed and failed records, keyed by its module and
/// its name.
pub proof fn lemma_run_partition(
    modules: Seq<ModuleTestPlanV>,
    execs: Seq<Seq<TestExecutionV>>,
    m: int,
    i: int,
)
    requires
        plan_run_named(modules, execs),
        0 <= m < modules.len(),
        0 <= i < execs[m].len(),
    ensures
        passed_has(
            spec_plan_stats(modules, execs),
            modules[m].module_id,
            modules[m].tests[i].0,
        ) <==> !failed_has(
            spec_plan_stats(modules, execs),
            modules[m].module_id,
            modules[m].tests[i].0,
        ),
{
    let parts = Seq::new(execs.len(), |q: int| spec_module_stats(modules[q], execs[q]));
    lemma_plan_stats_is_merge_all(modules, execs);
    assert forall|q: int| 0 <= q < parts.len() implies (#[trigger] parts[q]).wf() by {
        lemma_module_stats_shape(modules[q], execs[q]);
    }
    assert forall|q1: int, q2: int|
        0 <= q1 < parts.len() && 0 <= q2 < parts.len() && q1 != q2 implies crate::test_reporter::disjoint_stats(
        #[trigger] parts[q1],
        #[trigger] parts[q2],
    ) by {
        lemma_module_stats_shape(modules[q1], execs[q1]);
        lemma_module_stats_shape(modules[q2], execs[q2]);
        assert forall|x: ModuleIdV|
            #![trigger crate::test_reporter::has_module(parts[q1], x), crate::test_reporter::has_module(parts[q2], x)]
            !(crate::test_reporter::has_module(parts[q1], x)
                && crate::test_reporter::has_module(parts[q2], x)) by {
            if crate::test_reporter::has_module(parts[q1], x)
                && crate::test_reporter::has_module(parts[q2], x) {
                assert(x == modules[q1].module_id);
                assert(x == modules[q2].module_id);
                if q1 < q2 {
                    assert(modules[q1].module_id != modules[q2].module_id);
                } else {
                    assert(modules[q2].module_id != modules[q1].module_id);
                }
            }
        }
    }
    crate::test_reporter::lemma_merge_all_content(parts);
    let stats = spec_plan_stats(modules, execs);
    let mid = modules[m].module_id;
    let name = modules[m].tests[i].0;
    lemma_module_stats_records(modules[m], execs[m]);
    lemma_module_stats_shape(modules[m], execs[m]);
    let outcome = spec_outcome_at(modules[m], execs[m], i);
    assert(passed_has(stats, mid, name) <==> (outcome is Passed)) by {
        if passed_has(stats, mid, name) {
            let k = choose|k: int|
                0 <= k < stats.passed.len() && (#[trigger] stats.passed[k]).0 == mid
                    && stats.passed[k].1.function_ident == name;
            let y = stats.passed[k];
            assert(stats.passed.to_set().contains(y));
            crate::test_reporter::lemma_union_passed_member(parts, y);
            let q = choose|q: int|
                0 <= q < parts.len() && (#[trigger] parts[q]).passed_set().contains(y);
            lemma_module_stats_shape(modules[q], execs[q]);
            let r = choose|r: int| 0 <= r < parts[q].passed.len() && parts[q].passed[r] == y;
            assert(y.0 == modules[q].module_id);
            if q != m {
                if q < m {
                    assert(modules[q].module_id != modules[m].module_id);
                } else {
                    assert(modules[m].module_id != modules[q].module_id);
                }
            }
            assert(q == m);
            assert(passed_has_name(parts[m], name)) by {
                assert(parts[m].passed[r].1.function_ident == name);
            }
        }
        if outcome is Passed {
            assert(passed_has_name(parts[m], name));
            let k = choose|k: int|
                0 <= k < parts[m].passed.len() && (#[trigger] parts[m].passed[k]).1.function_ident
                    == name;
            let y = parts[m].passed[k];
            assert(y.0 == mid);
            assert(parts[m].passed_set().contains(y));
            crate::test_reporter::lemma_union_remove(parts, m);
            assert(crate::test_reporter::union_passed(parts).contains(y));
            assert(stats.passed.to_set().contains(y));
            let k2 = choose|k2: int| 0 <= k2 < stats.passed.len() && stats.passed[k2] == y;
            assert(passed_has(stats, mid, name));
        }
    }
    assert(failed_has(stats, mid, name) <==> (outcome is Failed)) by {
        if failed_has(stats, mid, name) {
            let k = choose|k: int|
                0 <= k < stats.failed.len() && (#[trigger] stats.failed[k]).0 == mid
                    && stats.failed[k].1.test_run_info.function_ident == name;
            let y = stats.failed[k];
            assert(stats.failed.to_set().contains(y));
            crate::test_reporter::lemma_union_failed_member(parts, y);
            let q = choose|q: int|
                0 <= q < parts.len() && (#[trigger] parts[q]).failed_set().contains(y);
            lemma_module_stats_shape(modules[q], execs[q]);
            let r = choose|r: int| 0 <= r < parts[q].failed.len() && parts[q].failed[r] == y;
            assert(y.0 == modules[q].module_id);
            if q != m {
                if q < m {
                    assert(modules[q].module_id != modules[m].module_id);
                } else {
                    assert(modules[m].module_id != modules[q].module_id);
                }
            }
            assert(q == m);
            assert(failed_has_name(parts[m], name)) by {
                assert(parts[m].failed[r].1.test_run_info.function_ident == name);
            }
        }
        if outcome is Failed {
            assert(failed_has_name(parts[m], name));
            let k = choose|k: int|
                0 <= k < parts[m].failed.len() && (#[trigger] parts[m].failed[k]).1.test_run_info.function_ident
                    == name;
            let y = parts[m].failed[k];
            assert(y.0 == mid);
            assert(parts[m].failed_set().contains(y));
            crate::test_reporter::lemma_union_remove(parts, m);
            assert(crate::test_reporter::union_failed(parts).contains(y));
            assert(stats.failed.to_set().contains(y));
            let k2 = choose|k2: int| 0 <= k2 < stats.failed.len() && stats.failed[k2] == y;
            assert(failed_has(stats, mid, name));
        }
    }
    assert(outcome is Passed || outcome is Failed);
}

/// A run record with its elapsed time forgotten.
pub open spec fn erase_info(i: TestRunInfoV) -> TestRunInfoV {
    TestRunInfoV {
        function_ident: i.function_ident,
        elapsed_nanos: 0,
        instructions_executed: i.instructions_executed,
    }
}

/// A failure record with its elapsed time forgotten.
pub open spec fn erase_failure(f: TestFailureV) -> TestFailureV {
    TestFailureV {
        test_run_info: erase_info(f.test_run_info),
        vm_error: f.vm_error,
        failure_reason: f.failure_reason,
    }
}

/// An execution with its elapsed time forgotten.
pub open spec fn erase_exec_timing(e: TestExecutionV) -> TestExecutionV {
    TestExecutionV {
        run_info: erase_info(e.run_info),
        primary_result: e.primary_result,
        cross: e.cross,
    }
}

/// Statistics with every record's elapsed time forgotten.
pub open spec fn erase_stats_timing(s: TestStatisticsV) -> TestStatisticsV {
    TestStatisticsV {
        passed: s.passed.map_values(
            |p: (ModuleIdV, TestRunInfoV)| (p.0, erase_info(p.1)),
        ),
        failed: s.failed.map_values(
            |p: (ModuleIdV, TestFailureV)| (p.0, erase_failure(p.1)),
        ),
        output: s.output,
    }
}

/// Adjudication reads nothing of the elapsed time: two executions
/// that agree on everything else earn outcomes that agree after the
/// time is forgotten.
pub proof fn lemma_adjudicate_ignores_timing(
    e1: TestExecutionV,
    e2: TestExecutionV,
    expected: Option<ExpectedFailureV>,
)
    requires
        erase_exec_timing(e1) == erase_exec_timing(e2),
    ensures
        match (spec_adjudicate(e1, expected), spec_adjudicate(e2, expected)) {
            (TestOutcomeV::Passed(i1), TestOutcomeV::Passed(i2)) => erase_info(i1) == erase_info(
                i2,
            ),
            (TestOutcomeV::Failed(f1), TestOutcomeV::Failed(f2)) => erase_failure(f1)
                == erase_failure(f2),
            _ => false,
        },
{
    assert(e1.primary_result == e2.primary_result);
    assert(e1.cross == e2.cross);
    assert(erase_info(e1.run_info) == erase_info(e2.run_info));
}

/// One module's statistics, after the elapsed times are forgotten,
/// are a function of the plan and the timeless executions alone: two
/// runs of the same tests that differ only in timing agree.
pub proof fn lemma_module_stats_ignore_timing(
    plan: ModuleTestPlanV,
    execs1: Seq<TestExecutionV>,
    execs2: Seq<TestExecutionV>,
)
    requires
        module_run_named(plan, execs1),
        module_run_named(plan, execs2),
        execs1.len() == execs2.len(),
        forall|i: int|
            0 <= i < execs1.len() ==> erase_exec_timing(#[trigger] execs1[i]) == erase_exec_timing(
                execs2[i],
            ),
    ensures
        erase_stats_timing(spec_module_stats(plan, execs1)) == erase_stats_timing(
            spec_module_stats(plan, execs2),
        ),
    decreases execs1.len(),
{
    if execs1.len() == 0 {
        assert(erase_stats_timing(spec_module_stats(plan, execs1)) =~= erase_stats_timing(
            spec_module_stats(plan, execs2),
        ));
    } else {
        let n = execs1.len() - 1;
        let p1 = execs1.drop_last();
        let p2 = execs2.drop_last();
        assert(module_run_named(plan, p1) && module_run_named(plan, p2)) by {
            assert(forall|i: int| 0 <= i < p1.len() ==> p1[i] == execs1[i]);
            assert(forall|i: int| 0 <= i < p2.len() ==> p2[i] == execs2[i]);
        }
        lemma_module_stats_ignore_timing(plan, p1, p2);
        lemma_module_stats_records(plan, p1);
        lemma_module_stats_records(plan, p2);
        lemma_module_stats_shape(plan, p1);
        lemma_module_stats_shape(plan, p2);
        let prev1 = spec_module_stats(plan, p1);
        let prev2 = spec_module_stats(plan, p2);
        let whole1 = spec_module_stats(plan, execs1);
        let whole2 = spec_module_stats(plan, execs2);
        let o1 = spec_last_outcome(plan, execs1);
        let o2 = spec_last_outcome(plan, execs2);
        assert(o1 == spec_outcome_at(plan, execs1, n) && o2 == spec_outcome_at(plan, execs2, n));
        lemma_adjudicate_ignores_timing(execs1[n], execs2[n], plan.tests[n].1.expected_failure);
        let name = plan.tests[n].0;
        assert(execs1[n].run_info.function_ident == name);
        assert(execs2[n].run_info.function_ident == name);
        match (o1, o2) {
            (TestOutcomeV::Passed(i1), TestOutcomeV::Passed(i2)) => {
                assert(i1 == execs1[n].run_info && i2 == execs2[n].run_info);
                assert(!prev1.passed.contains((plan.module_id, i1))) by {
                    if prev1.passed.contains((plan.module_id, i1)) {
                        let k = choose|k: int|
                            0 <= k < prev1.passed.len() && prev1.passed[k] == (plan.module_id, i1);
                        let j = choose|j: int|
                            0 <= j < p1.len() && prev1.passed[k] == (
                            plan.module_id,
                            #[trigger] p1[j].run_info,
                            ) && spec_outcome_at(plan, p1, j) is Passed;
                        assert(plan.tests[j].0 == name);
                    }
                }
                assert(!prev2.passed.contains((plan.module_id, i2))) by {
                    if prev2.passed.contains((plan.module_id, i2)) {
                        let k = choose|k: int|
                            0 <= k < prev2.passed.len() && prev2.passed[k] == (plan.module_id, i2);
                        let j = choose|j: int|
                            0 <= j < p2.len() && prev2.passed[k] == (
                            plan.module_id,
                            #[trigger] p2[j].run_info,
                            ) && spec_outcome_at(plan, p2, j) is Passed;
                        assert(plan.tests[j].0 == name);
                    }
                }
                lemma_same_module_insert_is_push(
                    prev1.passed,
                    (plan.module_id, i1),
                    plan.module_id,
                );
                lemma_same_module_insert_is_push(
                    prev2.passed,
                    (plan.module_id, i2),
                    plan.module_id,
                );
                assert(whole1.passed == prev1.passed.push((plan.module_id, i1)));
                assert(whole2.passed == prev2.passed.push((plan.module_id, i2)));
                assert(erase_stats_timing(prev1).passed.len() == erase_stats_timing(
                    prev2,
                ).passed.len());
                assert forall|k: int|
                    0 <= k < whole1.passed.len() implies #[trigger] erase_stats_timing(
                    whole1,
                ).passed[k] == erase_stats_timing(whole2).passed[k] by {
                    if k < prev1.passed.len() {
                        assert(whole1.passed[k] == prev1.passed[k]);
                        assert(whole2.passed[k] == prev2.passed[k]);
                        assert(erase_stats_timing(prev1).passed[k] == erase_stats_timing(
                            prev2,
                        ).passed[k]);
                    } else {
                        assert(whole1.passed[k] == (plan.module_id, i1));
                        assert(whole2.passed[k] == (plan.module_id, i2));
                        assert(erase_info(i1) == erase_info(i2));
                    }
                }
                assert(erase_stats_timing(whole1).passed =~= erase_stats_timing(whole2).passed);
                assert(erase_stats_timing(whole1) =~= erase_stats_timing(whole2));
            },
            (TestOutcomeV::Failed(f1), TestOutcomeV::Failed(f2)) => {
                assert(f1.test_run_info == execs1[n].run_info && f2.test_run_info == execs2[
                    n].run_info) by {
                    assert(o1 == spec_adjudicate(execs1[n], plan.tests[n].1.expected_failure));
                    assert(o2 == spec_adjudicate(execs2[n], plan.tests[n].1.expected_failure));
                }
                assert(!prev1.failed.contains((plan.module_id, f1))) by {
                    if prev1.failed.contains((plan.module_id, f1)) {
                        let k = choose|k: int|
                            0 <= k < prev1.failed.len() && prev1.failed[k] == (plan.module_id, f1);
                        let j = choose|j: int|
                            0 <= j < p1.len() && prev1.failed[k].1.test_run_info == #[trigger] p1[
                                j
                            ].run_info && spec_outcome_at(plan, p1, j) is Failed;
                        assert(plan.tests[j].0 == name);
                    }
                }
                assert(!prev2.failed.contains((plan.module_id, f2))) by {
                    if prev2.failed.contains((plan.module_id, f2)) {
                        let k = choose|k: int|
                            0 <= k < prev2.failed.len() && prev2.failed[k] == (plan.module_id, f2);
                        let j = choose|j: int|
                            0 <= j < p2.len() && prev2.failed[k].1.test_run_info == #[trigger] p2[
                                j
                            ].run_info && spec_outcome_at(plan, p2, j) is Failed;
                        assert(plan.tests[j].0 == name);
                    }
                }
                lemma_same_module_insert_is_push(
                    prev1.failed,
                    (plan.module_id, f1),
                    plan.module_id,
                );
                lemma_same_module_insert_is_push(
                    prev2.failed,
                    (plan.module_id, f2),
                    plan.module_id,
                );
                assert(whole1.failed == prev1.failed.push((plan.module_id, f1)));
                assert(whole2.failed == prev2.failed.push((plan.module_id, f2)));
                assert(erase_stats_timing(prev1).failed.len() == erase_stats_timing(
                    prev2,
                ).failed.len());
                assert forall|k: int|
                    0 <= k < whole1.failed.len() implies #[trigger] erase_stats_timing(
                    whole1,
                ).failed[k] == erase_stats_timing(whole2).failed[k] by {
                    if k < prev1.failed.len() {
                        assert(whole1.failed[k] == prev1.failed[k]);
                        assert(whole2.failed[k] == prev2.failed[k]);
                        assert(erase_stats_timing(prev1).failed[k] == erase_stats_timing(
                            prev2,
                        ).failed[k]);
                    } else {
                        assert(whole1.failed[k] == (plan.module_id, f1));
                        assert(whole2.failed[k] == (plan.module_id, f2));
                        assert(erase_failure(f1) == erase_failure(f2));
                    }
                }
                assert(erase_stats_timing(whole1).failed =~= erase_stats_timing(whole2).failed);
                assert(erase_stats_timing(whole1) =~= erase_stats_timing(whole2));
            },
            _ => {
                assert(false);
            },
        }
    }
}

/// A whole run's merged statistics are the per-module statistics
/// merged in plan order.
pub proof fn lemma_plan_stats_is_merge_all(
    modules: Seq<ModuleTestPlanV>,
    execs: Seq<Seq<TestExecutionV>>,
)
    requires
        execs.len() <= modules.len(),
    ensures
        spec_plan_stats(modules, execs) == crate::test_reporter::merge_all(
            Seq::new(execs.len(), |m: int| spec_module_stats(modules[m], execs[m])),
        ),
    decreases execs.len(),
{
    let parts = Seq::new(execs.len(), |m: int| spec_module_stats(modules[m], execs[m]));
    if execs.len() == 0 {
        assert(spec_plan_stats(modules, execs) =~= crate::test_reporter::merge_all(parts));
    } else {
        lemma_plan_stats_is_merge_all(modules, execs.drop_last());
        let prev_parts = Seq::new(
            execs.drop_last().len(),
            |m: int| spec_module_stats(modules[m], execs.drop_last()[m]),
        );
        assert(parts.drop_last() =~= prev_parts);
        assert(parts.last() == spec_module_stats(modules[execs.len() - 1], execs.last()));
    }
}


/// The views of a module collection.
pub open spec fn units_view(modules: Seq<ModuleUnit>) -> Seq<ModuleUnitV> {
    modules.map_values(|m: ModuleUnit| m@)
}

/// The in-memory module store the backends read from: each module's
/// serialized bytecode under its identifier, published in dependency
/// order.
#[derive(Debug)]
pub struct TestStorage {
    pub entries: Vec<(ModuleId, Vec<u8>)>,
}

#[verifier::ext_equal]
pub ghost struct TestStorageV {
    pub entries: Seq<(ModuleIdV, Seq<u8>)>,
}

impl View for TestStorage {
    type V = TestStorageV;

    open spec fn view(&self) -> TestStorageV {
        TestStorageV {
            entries: self.entries@.map_values(|e: (ModuleId, Vec<u8>)| (e.0@, e.1@)),
        }
    }
}

/// The module dependency graph contains a cycle, so no publication
/// order can respect it: the whole run is abandoned.
#[derive(Debug)]
pub struct CyclicDependencyError;

/// Every dependency index points back into the module collection.
pub open spec fn deps_wf(modules: Seq<ModuleUnitV>) -> bool {
    forall|i: int, k: int|
        0 <= i < modules.len() && 0 <= k < modules[i].deps.len() ==> (#[trigger] modules[i].deps[k])
            < modules.len()
}

/// The k-th dependency of the module at position p stands earlier in
/// the order.
pub open spec fn dep_placed(modules: Seq<ModuleUnitV>, order: Seq<usize>, p: int, k: int) -> bool {
    exists|q: int| 0 <= q < p && #[trigger] order[q] == modules[order[p] as int].deps[k]
}

/// A publication order that respects the dependencies: every module
/// appears exactly once, after all modules it depends on.
pub open spec fn dep_order_ok(modules: Seq<ModuleUnitV>, order: Seq<usize>) -> bool {
    &&& order.len() == modules.len()
    &&& forall|p: int| 0 <= p < order.len() ==> (#[trigger] order[p]) < modules.len()
    &&& order.no_duplicates()
    &&& forall|p: int, k: int|
        0 <= p < order.len() && 0 <= k < modules[order[p] as int].deps.len() ==> #[trigger] dep_placed(
            modules,
            order,
            p,
            k,
        )
}

/// A nonempty set of modules each of which depends on another member
/// of the set: the witness of a dependency cycle.
pub open spec fn blocked(modules: Seq<ModuleUnitV>, s: Set<int>) -> bool {
    &&& exists|x: int| s.contains(x)
    &&& forall|i: int| #[trigger] s.contains(i) ==> 0 <= i < modules.len()
    &&& forall|i: int| #[trigger]
        s.contains(i) ==> exists|k: int|
            0 <= k < modules[i].deps.len() && s.contains(modules[i].deps[k] as int)
}

/// A topological order over the modules, or the report that the
/// dependency graph has a cycle.  Modules with no unpublished
/// dependencies are emitted in passes until none is left or no
/// progress can be made.
/// What the emission loop maintains: the emitted prefix is a
/// duplicate-free run of marked modules, and every emitted module's
/// dependencies stand earlier in it.
pub open spec fn topo_inv(
    mview: Seq<ModuleUnitV>,
    order: Seq<usize>,
    done: Seq<bool>,
    n: int,
) -> bool {
    &&& done.len() == n
    &&& order.len() <= n
    &&& forall|p: int| 0 <= p < order.len() ==> (#[trigger] order[p]) < n
    &&& order.no_duplicates()
    &&& forall|q: int| 0 <= q < order.len() ==> done[#[trigger] order[q] as int]
    &&& forall|d: int|
        0 <= d < n && #[trigger] done[d] ==> exists|q: int| 0 <= q < order.len() && order[q] == d
    &&& forall|p: int, k: int|
        0 <= p < order.len() && 0 <= k < mview[order[p] as int].deps.len() ==> #[trigger] dep_placed(
            mview,
            order,
            p,
            k,
        )
}

/// Emitting a module whose dependencies are all marked keeps the
/// emission invariant.
proof fn lemma_topo_emit(
    mview: Seq<ModuleUnitV>,
    order: Seq<usize>,
    done: Seq<bool>,
    n: int,
    i: usize,
)
    requires
        topo_inv(mview, order, done, n),
        deps_wf(mview),
        mview.len() == n,
        n <= usize::MAX,
        i < n,
        !done[i as int],
        forall|k: int|
            0 <= k < mview[i as int].deps.len() ==> done[#[trigger] mview[i as int].deps[k] as int],
    ensures
        topo_inv(mview, order.push(i), done.update(i as int, true), n),
{
    let order2 = order.push(i);
    let done2 = done.update(i as int, true);
    assert(!order.contains(i)) by {
        if order.contains(i) {
            let q = choose|q: int| 0 <= q < order.len() && order[q] == i;
            assert(done[order[q] as int]);
        }
    }
    assert(order.len() < n) by {
        order.unique_seq_to_set();
        vstd::seq_lib::seq_to_set_is_finite::<usize>(order);
        lemma_usize_range_len(n);
        assert(order.to_set().subset_of(usize_below(n))) by {
            assert forall|u: usize| #[trigger] order.to_set().contains(u) implies (u as int)
                < n by {
                let q = choose|q: int| 0 <= q < order.len() && order[q] == u;
            }
        }
        vstd::set_lib::lemma_len_subset(order.to_set(), usize_below(n));
        if order.len() == n {
            vstd::set_lib::lemma_subset_equality(order.to_set(), usize_below(n));
            assert(usize_below(n).contains(i));
            assert(order.to_set().contains(i));
        }
    }
    assert(order2.no_duplicates()) by {
        assert forall|p: int, q: int| 0 <= p < q < order2.len() implies order2[p] != order2[q] by {
            if q == order2.len() - 1 {
                assert(order2[p] == order[p]);
                assert(order.contains(order[p]));
            }
        }
    }
    assert forall|p: int| 0 <= p < order2.len() implies (#[trigger] order2[p]) < n by {
        if p < order2.len() - 1 {
            assert(order2[p] == order[p]);
        } else {
            assert(order2[p] == i);
        }
    }
    assert forall|q: int| 0 <= q < order2.len() implies done2[#[trigger] order2[q] as int] by {
        if q < order2.len() - 1 {
            assert(order2[q] == order[q]);
            assert(done[order[q] as int]);
        } else {
            assert(order2[q] == i);
        }
    }
    assert forall|d: int| 0 <= d < n && #[trigger] done2[d] implies exists|q: int|
        0 <= q < order2.len() && order2[q] == d by {
        if d == i as int {
            assert(order2[order2.len() - 1] == i);
        } else {
            assert(done[d]);
            let q = choose|q: int| 0 <= q < order.len() && order[q] == d;
            assert(order2[q] == d);
        }
    }
    assert forall|p: int, k: int|
        0 <= p < order2.len() && 0 <= k < mview[order2[p] as int].deps.len() implies #[trigger] dep_placed(
        mview,
        order2,
        p,
        k,
    ) by {
        if p < order2.len() - 1 {
            assert(order2[p] == order[p]);
            assert(0 <= p < order.len() && 0 <= k < mview[order[p] as int].deps.len());
            assert(dep_placed(mview, order, p, k));
            let q = choose|q: int|
                0 <= q < p && #[trigger] order[q] == mview[order[p] as int].deps[k];
            assert(order2[q] == order[q]);
            assert(mview[order2[p] as int].deps[k] == mview[order[p] as int].deps[k]);
            assert(order2[q] == mview[order2[p] as int].deps[k]);
        } else {
            assert(order2[p] == i);
            let d = mview[i as int].deps[k];
            assert(d < n);
            assert(done[d as int]);
            assert(exists|q: int| 0 <= q < order.len() && #[trigger] order[q] as int == d as int);
            let q = choose|q: int| 0 <= q < order.len() && #[trigger] order[q] as int == d as int;
            assert(order2[q] == order[q]);
            assert(order2[q] == d);
            assert(order2[q] == mview[order2[p] as int].deps[k]);
        }
    }
}

/// A topological order over the modules, or the report that the
/// dependency graph has a cycle.  Modules with no unpublished
/// dependencies are emitted in passes until none is left or no
/// progress can be made.
#[verifier::rlimit(100)]
#[verifier::spinoff_prover]
pub fn topological_order(modules: &Vec<ModuleUnit>) -> (r: Result<Vec<usize>, CyclicDependencyError>)
    requires
        deps_wf(units_view(modules@)),
    ensures
        match r {
            Result::Ok(order) => dep_order_ok(units_view(modules@), order@),
            Result::Err(_) => exists|s: Set<int>|
                #[trigger] blocked(units_view(modules@), s),
        },
{
    let ghost mview = units_view(modules@);
    let n = modules.len();
    let mut done: Vec<bool> = Vec::new();
    while done.len() < n
        invariant
            done@.len() <= n,
            forall|x: int| 0 <= x < done@.len() ==> !(#[trigger] done@[x]),
        decreases n - done@.len(),
    {
        done.push(false);
    }
    let mut order: Vec<usize> = Vec::new();
    loop
        invariant
            n == modules@.len(),
            mview == units_view(modules@),
            mview.len() == n,
            deps_wf(mview),
            topo_inv(mview, order@, done@, n as int),
        decreases n - order@.len(),
    {
        let ghost done0 = done@;
        let ghost len0 = order@.len();
        let mut progress = false;
        let mut i: usize = 0;
        while i < n
            invariant
                n == modules@.len(),
                mview == units_view(modules@),
                mview.len() == n,
                deps_wf(mview),
                i <= n,
                topo_inv(mview, order@, done@, n as int),
                progress ==> order@.len() > len0,
                !progress ==> done@ == done0 && order@.len() == len0,
                !progress ==> forall|x: int|
                    0 <= x < i && !(#[trigger] done0[x]) ==> exists|k: int|
                        0 <= k < mview[x].deps.len() && !done0[mview[x].deps[k] as int],
            decreases n - i,
        {
            if !done[i] {
                let module = &modules[i];
                proof {
                    assert(mview[i as int] == module@);
                }
                let dn = module.deps.len();
                let mut k: usize = 0;
                let mut ready = true;
                while k < dn
                    invariant
                        n == modules@.len(),
                        mview == units_view(modules@),
                        mview[i as int] == module@,
                        i < n,
                        deps_wf(mview),
                        dn == module.deps@.len(),
                        done@.len() == n,
                        k <= dn,
                        ready ==> forall|q: int|
                            0 <= q < k ==> done@[#[trigger] module.deps@[q] as int],
                        !ready ==> exists|kk: int|
                            0 <= kk < dn && !done@[#[trigger] module.deps@[kk] as int],
                    decreases dn - k,
                {
                    proof {
                        assert(mview[i as int].deps[k as int] == module.deps@[k as int]);
                        assert(module.deps@[k as int] < n);
                    }
                    if !done[module.deps[k]] {
                        ready = false;
                        k = dn;
                    } else {
                        k += 1;
                    }
                }
                if ready {
                    let ghost prev_order = order@;
                    let ghost prev_done = done@;
                    proof {
                        assert forall|kk: int|
                            0 <= kk < mview[i as int].deps.len() implies prev_done[#[trigger] mview[
                            i as int].deps[kk] as int] by {
                            assert(done@[module.deps@[kk] as int]);
                        }
                        lemma_topo_emit(mview, prev_order, prev_done, n as int, i);
                    }
                    order.push(i);
                    done[i] = true;
                    progress = true;
                    proof {
                        assert(order@ == prev_order.push(i));
                        assert(done@ == prev_done.update(i as int, true));
                    }
                } else {
                    proof {
                        if !progress {
                            assert(done0 == done@);
                            let kk = choose|kk: int|
                                0 <= kk < dn && !done@[#[trigger] module.deps@[kk] as int];
                            assert(!done0[mview[i as int].deps[kk] as int]);
                        }
                    }
                }
            }
            i += 1;
        }
        if !progress {
            if order.len() == n {
                proof {
                    assert(dep_order_ok(mview, order@)) by {
                        assert(topo_inv(mview, order@, done@, n as int));
                        assert(order@.len() == mview.len());
                        assert(order@.no_duplicates());
                        assert forall|p: int| 0 <= p < order@.len() implies (#[trigger] order@[p])
                            < mview.len() by {
                            assert(topo_inv(mview, order@, done@, n as int));
                        }
                        assert forall|p: int, k: int|
                            0 <= p < order@.len() && 0 <= k < mview[order@[p] as int].deps.len()
                            implies #[trigger] dep_placed(mview, order@, p, k) by {
                            assert(topo_inv(mview, order@, done@, n as int));
                        }
                    }
                }
                return Result::Ok(order);
            }
            proof {
                let s = Set::new(|x: int| 0 <= x < n && !done0[x]);
                assert(order@.len() < n);
                assert(exists|x: int| 0 <= x < n && !(#[trigger] done0[x])) by {
                    if forall|x: int| 0 <= x < n ==> #[trigger] done0[x] {
                        order@.unique_seq_to_set();
                        vstd::seq_lib::seq_to_set_is_finite::<usize>(order@);
                        assert forall|u: usize| (u as int) < n implies #[trigger] order@.to_set()
                            .contains(u) by {
                            assert(done0[u as int]);
                            let q = choose|q: int|
                                0 <= q < order@.len() && order@[q] == u as int;
                            assert(order@[q] == u);
                            assert(order@.contains(u));
                        }
                        assert(usize_below(n as int).subset_of(order@.to_set()));
                        lemma_usize_range_len(n as int);
                        vstd::set_lib::lemma_len_subset(
                            usize_below(n as int),
                            order@.to_set(),
                        );
                        assert(false);
                    }
                }
                let w = choose|x: int| 0 <= x < n && !(#[trigger] done0[x]);
                assert(s.contains(w));
                assert forall|x: int| #[trigger] s.contains(x) implies exists|k: int|
                    0 <= k < mview[x].deps.len() && s.contains(mview[x].deps[k] as int) by {
                    assert(0 <= x < n && !done0[x]);
                    let k = choose|k: int|
                        0 <= k < mview[x].deps.len() && !done0[mview[x].deps[k] as int];
                    assert(mview[x].deps[k] < n);
                    assert(s.contains(mview[x].deps[k] as int));
                }
                assert(blocked(mview, s));
            }
            return Result::Err(CyclicDependencyError);
        }
    }
}

/// The machine words below a bound.
pub open spec fn usize_below(n: int) -> Set<usize> {
    Set::new(|u: usize| (u as int) < n)
}

/// The set of machine words below a bound has that many members.
proof fn lemma_usize_range_len(n: int)
    requires
        0 <= n <= usize::MAX,
    ensures
        usize_below(n).finite(),
        usize_below(n).len() == n,
    decreases n,
{
    if n == 0 {
        assert(usize_below(n) =~= Set::<usize>::empty());
    } else {
        lemma_usize_range_len(n - 1);
        assert(usize_below(n) =~= usize_below(n - 1).insert((n - 1) as usize));
    }
}

/// Set up the storage state with the set of modules that the tests
/// will need, published in dependency order; refused when the
/// dependency graph has a cycle.
pub fn setup_test_storage(modules: &Vec<ModuleUnit>) -> (r: Result<
    TestStorage,
    CyclicDependencyError,
>)
    requires
        deps_wf(units_view(modules@)),
    ensures
        match r {
            Result::Ok(storage) => exists|order: Seq<usize>|
                dep_order_ok(units_view(modules@), order)
                    && #[trigger] storage@.entries == Seq::new(
                    order.len(),
                    |p: int|
                        (
                            units_view(modules@)[order[p] as int].id,
                            units_view(modules@)[order[p] as int].bytecode,
                        ),
                ),
            Result::Err(_) => exists|s: Set<int>|
                #[trigger] blocked(units_view(modules@), s),
        },
{
    let ghost mview = units_view(modules@);
    let order = match topological_order(modules) {
        Result::Ok(order) => order,
        Result::Err(e) => {
            return Result::Err(e);
        },
    };
    let mut entries: Vec<(ModuleId, Vec<u8>)> = Vec::new();
    let count = order.len();
    let mut p: usize = 0;
    while p < count
        invariant
            mview == units_view(modules@),
            mview.len() == modules@.len(),
            count == order@.len(),
            dep_order_ok(mview, order@),
            p <= count,
            entries@.len() == p,
            forall|q: int|
                0 <= q < p ==> (#[trigger] entries@[q]).0@ == mview[order@[q] as int].id
                    && entries@[q].1@ == mview[order@[q] as int].bytecode,
        decreases count - p,
    {
        let idx = order[p];
        let module = &modules[idx];
        proof {
            assert(mview[idx as int] == module@);
        }
        entries.push((module.id.duplicate(), crate::test_reporter::duplicate_bytes(&module.bytecode)));
        p += 1;
    }
    let storage = TestStorage { entries };
    proof {
        assert(storage@.entries =~= Seq::new(
            order@.len(),
            |p: int| (mview[order@[p] as int].id, mview[order@[p] as int].bytecode),
        ));
    }
    Result::Ok(storage)
}

impl TestRunner {
    /// Build a runner: publish every module of the plan into the
    /// shared storage in dependency order, and keep the shared
    /// configuration for the workers.  A cyclic module graph is fatal
    /// and refused here.
    pub fn new(
        execution_bound: u64,
        num_threads: usize,
        check_stackless_vm: bool,
        verbose: bool,
        report_stacktrace_on_abort: bool,
        colorize: bool,
        tests: TestPlan,
        source_files: Vec<String>,
        named_address_values: Vec<(String, u128)>,
    ) -> (r: Result<TestRunner, CyclicDependencyError>)
        requires
            deps_wf(units_view(tests.modules@)),
        ensures
            match r {
                Result::Ok(runner) => {
                    &&& runner.tests == tests
                    &&& runner.num_threads == num_threads
                    &&& runner.testing_config.execution_bound == execution_bound
                    &&& runner.testing_config.check_stackless_vm == check_stackless_vm
                    &&& runner.testing_config.verbose == verbose
                    &&& runner.testing_config.report_stacktrace_on_abort
                        == report_stacktrace_on_abort
                    &&& runner.testing_config.colorize == colorize
                    &&& runner.testing_config.source_files == source_files
                    &&& runner.testing_config.named_address_values == named_address_values
                    &&& exists|order: Seq<usize>|
                        dep_order_ok(units_view(tests.modules@), order)
                            && #[trigger] runner.testing_config.starting_storage_state@.entries
                            == Seq::new(
                            order.len(),
                            |p: int|
                                (
                                    units_view(tests.modules@)[order[p] as int].id,
                                    units_view(tests.modules@)[order[p] as int].bytecode,
                                ),
                        )
                },
                Result::Err(_) => exists|s: Set<int>|
                    #[trigger] blocked(units_view(tests.modules@), s),
            },
    {
        let starting_storage_state = match setup_test_storage(&tests.modules) {
            Result::Ok(storage) => storage,
            Result::Err(e) => {
                return Result::Err(e);
            },
        };
        Result::Ok(
            TestRunner {
                num_threads,
                testing_config: SharedTestingConfig {
                    report_stacktrace_on_abort,
                    execution_bound,
                    check_stackless_vm,
                    verbose,
                    colorize,
                    source_files,
                    named_address_values,
                    starting_storage_state,
                },
                tests,
            },
        )
    }
}

} // verus!
