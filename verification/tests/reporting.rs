use move_unit_test::entry_codec::encode_instruction_data;
use move_unit_test::errors::{
    ErrorLocation, MoveError, ModuleId, MAJOR_STATUS_ABORTED,
};
use move_unit_test::plan::{ModuleTestPlan, TestPlan};
use move_unit_test::test_reporter::{
    FailureReason, TestFailure, TestResults, TestRunInfo, TestStatistics,
};
use move_unit_test::test_runner::{fail_line, pass_line, timeout_line};
use move_unit_test::text::{decimal, seconds, str_contains};

fn module_id(name: &str) -> ModuleId {
    ModuleId::new(1, String::from(name))
}

fn empty_plan() -> TestPlan {
    TestPlan { module_tests: Vec::new(), modules: Vec::new() }
}

fn plan_for(module: &str) -> ModuleTestPlan {
    ModuleTestPlan { module_id: module_id(module), tests: Vec::new() }
}

#[test]
fn decimal_renders_exactly() {
    assert_eq!(decimal(0), "0");
    assert_eq!(decimal(42), "42");
    assert_eq!(decimal(12345), "12345");
    assert_eq!(decimal(u64::MAX), "18446744073709551615");
}

#[test]
fn seconds_renders_three_decimals() {
    assert_eq!(seconds(1234567890), "1.234");
    assert_eq!(seconds(0), "0.000");
    assert_eq!(seconds(999999), "0.000");
    assert_eq!(seconds(1500), "0.000");
    assert_eq!(seconds(2000000000), "2.000");
}

#[test]
fn substring_search() {
    assert!(str_contains("module::test_one", "test"));
    assert!(str_contains("abc", ""));
    assert!(!str_contains("abc", "abd"));
    assert!(!str_contains("ab", "abc"));
    assert!(str_contains("aaab", "aab"));
}

#[test]
fn status_lines_plain() {
    assert_eq!(pass_line(&module_id("m"), "t", false), "[ PASS    ] m::t");
    assert_eq!(fail_line(&module_id("m"), "t", false), "[ FAIL    ] m::t");
    assert_eq!(timeout_line(&module_id("m"), "t", false), "[ TIMEOUT ] m::t");
}

#[test]
fn status_lines_colored() {
    assert_eq!(
        pass_line(&module_id("m"), "t", true),
        "[ \u{1b}[1;92mPASS\u{1b}[0m    ] m::t"
    );
    assert_eq!(
        timeout_line(&module_id("m"), "t", true),
        "[ \u{1b}[1;93mTIMEOUT\u{1b}[0m ] m::t"
    );
}

#[test]
fn summarize_ok_line() {
    let results = TestResults::new(TestStatistics::new(), empty_plan());
    let mut out = String::new();
    assert!(results.summarize(&mut out, false));
    assert_eq!(out, "Test result: OK. Total tests: 0; passed: 0; failed: 0\n");
}

#[test]
fn summarize_failed_block() {
    let mut stats = TestStatistics::new();
    let plan = plan_for("m");
    stats.test_failure(
        TestFailure::new(
            FailureReason::timeout(),
            TestRunInfo::new(String::from("t4"), 10, 5000),
            None,
        ),
        &plan,
    );
    let results = TestResults::new(stats, empty_plan());
    let mut out = String::new();
    let all_passed = results.summarize(&mut out, false);
    assert!(!all_passed);
    let expected = "\nTest failures:\n\n\
                    Failures in m:\n\
                    \n\u{250c}\u{2500}\u{2500} t4 \u{2500}\u{2500}\u{2500}\u{2500}\u{2500}\u{2500}\n\
                    \u{2502} Test timed out\n\
                    \u{2514}\u{2500}\u{2500}\u{2500}\u{2500}\u{2500}\u{2500}\u{2500}\u{2500}\u{2500}\u{2500}\u{2500}\u{2500}\u{2500}\u{2500}\u{2500}\u{2500}\u{2500}\u{2500}\n\n\
                    Test result: FAILED. Total tests: 1; passed: 0; failed: 1\n";
    assert_eq!(out, expected);
}

#[test]
fn csv_report_lists_passed_tests_only() {
    let mut stats = TestStatistics::new();
    let plan = plan_for("m");
    stats.test_success(TestRunInfo::new(String::from("t1"), 1500, 7), &plan);
    stats.test_failure(
        TestFailure::new(
            FailureReason::no_error(),
            TestRunInfo::new(String::from("t2"), 9, 9),
            None,
        ),
        &plan,
    );
    let results = TestResults::new(stats, empty_plan());
    let mut out = String::new();
    let warning = results.report_statistics(&mut out, &Some(String::from("csv")));
    assert!(warning.is_none());
    assert_eq!(out, "name,nanos,gas\nm::t1,1500,7\n");
}

#[test]
fn unknown_report_format_warns_and_falls_back() {
    let results = TestResults::new(TestStatistics::new(), empty_plan());
    let mut out = String::new();
    let warning = results.report_statistics(&mut out, &Some(String::from("xml")));
    assert_eq!(
        warning.unwrap(),
        "Unknown output format 'xml' provided. Defaulting to basic format."
    );
    assert_eq!(out, "\nTest Statistics:\n\n\n");
}

#[test]
fn table_report_includes_passed_and_failed() {
    let mut stats = TestStatistics::new();
    let plan = plan_for("m");
    stats.test_success(TestRunInfo::new(String::from("t1"), 1234567890, 7), &plan);
    stats.test_failure(
        TestFailure::new(
            FailureReason::no_error(),
            TestRunInfo::new(String::from("t2"), 5, 9),
            None,
        ),
        &plan,
    );
    let results = TestResults::new(stats, empty_plan());
    let mut out = String::new();
    let warning = results.report_statistics(&mut out, &None);
    assert!(warning.is_none());
    assert!(out.starts_with("\nTest Statistics:\n\n"));
    assert!(out.contains("Test Name"));
    assert!(out.contains("Gas Used"));
    assert!(out.contains("m::t1"));
    assert!(out.contains("1.234"));
    assert!(out.contains("m::t2"));
    assert!(out.ends_with("\n"));
}

#[test]
fn goldens_report_lists_outputs() {
    let mut stats = TestStatistics::new();
    let plan = plan_for("m");
    stats.test_output(String::from("t1"), &plan, String::from("hello"));
    let results = TestResults::new(stats, empty_plan());
    let mut out = String::new();
    results.report_goldens(&mut out);
    assert_eq!(out, "m::t1\nOutput: hello\n");
}

#[test]
fn render_wrong_error_text() {
    let expected = MoveError::new(MAJOR_STATUS_ABORTED, Some(42), ErrorLocation::Script);
    let actual = MoveError::new(MAJOR_STATUS_ABORTED, Some(43), ErrorLocation::Script);
    let failure = TestFailure::new(
        FailureReason::wrong_error(expected, actual),
        TestRunInfo::new(String::from("t3"), 1, 1),
        None,
    );
    assert_eq!(
        failure.render_error(),
        "Test did not error as expected. Expected test to abort with code 42 \
         but instead it aborted with code 43 rooted here"
    );
}

#[test]
fn render_mismatch_text() {
    let failure = TestFailure::new(
        FailureReason::mismatch(Ok(vec![vec![1]]), Ok(vec![vec![2]])),
        TestRunInfo::new(String::from("t5"), 1, 1),
        None,
    );
    assert_eq!(
        failure.render_error(),
        "Executions via Move VM [M] and stackless VM [S] yield different results.\n\
         [M] - return values: Ok([[1]])\n\
         [S] - return values: Ok([[2]])\n"
    );
}

#[test]
fn encode_call_without_arguments() {
    let data = encode_instruction_data("main", &Vec::new()).unwrap();
    let mut expected = vec![4, 0, 0, 0, 0, 0, 0, 0];
    expected.extend_from_slice(b"main");
    assert_eq!(data, expected);
}

#[test]
fn encode_call_with_arguments() {
    let args = vec![vec![0x41], vec![0x42, 0x43]];
    let data = encode_instruction_data("f", &args).unwrap();
    let mut expected = vec![1, 0, 0, 0, 0, 0, 0, 0];
    expected.push(b'f');
    expected.extend_from_slice(&[2, 0, 0, 0, 0, 0, 0, 0]);
    expected.extend_from_slice(b"ABC");
    assert_eq!(data, expected);
}

#[test]
fn encode_rejects_invalid_text_argument() {
    let args = vec![vec![0xFF]];
    assert!(encode_instruction_data("f", &args).is_err());
}

#[test]
fn format_module_id_renders_name() {
    assert_eq!(move_unit_test::format_module_id(&module_id("arith")), "arith");
}

#[test]
fn run_info_new_keeps_fields() {
    let info = TestRunInfo::new(String::from("t"), 77, 88);
    assert_eq!(info.function_ident, "t");
    assert_eq!(info.elapsed_nanos, 77);
    assert_eq!(info.instructions_executed, 88);
}

#[test]
fn output_overwrites_same_key() {
    let mut stats = TestStatistics::new();
    let plan = plan_for("m");
    stats.test_output(String::from("t1"), &plan, String::from("first"));
    stats.test_output(String::from("t1"), &plan, String::from("second"));
    assert_eq!(stats.output.len(), 1);
    assert_eq!(stats.output[0].2, "second");
    let results = TestResults::new(stats, empty_plan());
    let mut out = String::new();
    results.report_goldens(&mut out);
    assert_eq!(out, "m::t1\nOutput: second\n");
}

#[test]
fn combine_output_later_side_wins() {
    let plan = plan_for("m");
    let mut stats_a = TestStatistics::new();
    stats_a.test_output(String::from("t1"), &plan, String::from("mine"));
    let mut stats_b = TestStatistics::new();
    stats_b.test_output(String::from("t1"), &plan, String::from("theirs"));
    let merged = stats_a.combine(stats_b);
    assert_eq!(merged.output.len(), 1);
    assert_eq!(merged.output[0].2, "theirs");
}

#[test]
fn duplicate_records_collapse() {
    let plan = plan_for("m");
    let mut stats = TestStatistics::new();
    stats.test_success(TestRunInfo::new(String::from("t1"), 5, 7), &plan);
    stats.test_success(TestRunInfo::new(String::from("t1"), 5, 7), &plan);
    assert_eq!(stats.passed.len(), 1);
    let mut other = TestStatistics::new();
    other.test_success(TestRunInfo::new(String::from("t1"), 5, 7), &plan);
    let merged = stats.combine(other);
    assert_eq!(merged.passed.len(), 1);
    let results = TestResults::new(merged, empty_plan());
    let mut out = String::new();
    assert!(results.summarize(&mut out, false));
    assert_eq!(out, "Test result: OK. Total tests: 1; passed: 1; failed: 0\n");
}

#[test]
fn summarize_groups_failures_per_module() {
    // Records of one module that are not contiguous still come under
    // a single heading, modules in order of first appearance.
    let mut stats = TestStatistics::new();
    let first = plan_for("m1");
    let second = plan_for("m2");
    for (plan, name) in [(&first, "a"), (&second, "b"), (&first, "c")] {
        stats.test_failure(
            TestFailure::new(
                FailureReason::timeout(),
                TestRunInfo::new(String::from(name), 1, 1),
                None,
            ),
            plan,
        );
    }
    let results = TestResults::new(stats, empty_plan());
    let mut out = String::new();
    assert!(!results.summarize(&mut out, false));
    let block = |name: &str| {
        format!(
            "\n\u{250c}\u{2500}\u{2500} {name} \u{2500}\u{2500}\u{2500}\u{2500}\u{2500}\u{2500}\n\
             \u{2502} Test timed out\n\
             \u{2514}\u{2500}\u{2500}\u{2500}\u{2500}\u{2500}\u{2500}\u{2500}\u{2500}\u{2500}\u{2500}\u{2500}\u{2500}\u{2500}\u{2500}\u{2500}\u{2500}\u{2500}\u{2500}\n\n"
        )
    };
    let expected = format!(
        "\nTest failures:\n\nFailures in m1:\n{}{}Failures in m2:\n{}\
         Test result: FAILED. Total tests: 3; passed: 0; failed: 3\n",
        block("a"),
        block("c"),
        block("b"),
    );
    assert_eq!(out, expected);
}

#[test]
fn report_follows_module_id_order() {
    // Records arrive for module "b" before module "a"; the maps keep
    // module-id order, so every report opens with "a".
    let mut stats = TestStatistics::new();
    let second = plan_for("b");
    let first = plan_for("a");
    stats.test_failure(
        TestFailure::new(
            FailureReason::timeout(),
            TestRunInfo::new(String::from("tb"), 1, 1),
            None,
        ),
        &second,
    );
    stats.test_failure(
        TestFailure::new(
            FailureReason::timeout(),
            TestRunInfo::new(String::from("ta"), 1, 1),
            None,
        ),
        &first,
    );
    stats.test_success(TestRunInfo::new(String::from("pb"), 2, 2), &second);
    stats.test_success(TestRunInfo::new(String::from("pa"), 2, 2), &first);
    assert_eq!(stats.failed[0].0, module_id("a"));
    assert_eq!(stats.failed[1].0, module_id("b"));
    assert_eq!(stats.passed[0].0, module_id("a"));
    let results = TestResults::new(stats, empty_plan());
    let mut csv = String::new();
    results.report_statistics(&mut csv, &Some(String::from("csv")));
    assert_eq!(csv, "name,nanos,gas\na::pa,2,2\nb::pb,2,2\n");
    let mut out = String::new();
    assert!(!results.summarize(&mut out, false));
    let a_at = out.find("Failures in a:").unwrap();
    let b_at = out.find("Failures in b:").unwrap();
    assert!(a_at < b_at);
}
