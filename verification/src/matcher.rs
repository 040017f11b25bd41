use crate::errors::{
    ExpectedFailure, ExpectedFailureV, MoveError, MoveErrorV, MAJOR_STATUS_ABORTED,
    MAJOR_STATUS_EXECUTED, MAJOR_STATUS_OUT_OF_GAS,
};
use crate::test_reporter::{
    no_error_message, timeout_message, unexpected_error_message, vm_result_view,
    wrong_abort_message, FailureReason, FailureReasonV, VmResult, VmResultV,
};
use vstd::prelude::*;

verus! {

/// The matcher's decision for one test: the test passed, or it failed
/// for the given reason.
#[derive(Debug)]
pub enum Verdict {
    Pass,
    Fail(FailureReason),
}

#[verifier::ext_equal]
pub ghost enum VerdictV {
    Pass,
    Fail(FailureReasonV),
}

impl View for Verdict {
    type V = VerdictV;

    open spec fn view(&self) -> VerdictV {
        match self {
            Verdict::Pass => VerdictV::Pass,
            Verdict::Fail(r) => VerdictV::Fail(r@),
        }
    }
}

/// Whether an error satisfies the deprecated abort-code expectation:
/// the error is an abort, its sub-status is present and is exactly the
/// declared code.
pub open spec fn abort_code_matches(actual: MoveErrorV, code: u64) -> bool {
    actual.major_status == MAJOR_STATUS_ABORTED && actual.sub_status == Some(code)
}

pub open spec fn spec_expected_failure_view(e: Option<ExpectedFailure>) -> Option<
    ExpectedFailureV,
> {
    match e {
        Option::None => Option::None,
        Option::Some(f) => Option::Some(f@),
    }
}

/// The outcome table: what the declared expectation makes of the
/// observed result.
///
/// - A successful run passes exactly when no failure was declared.
/// - A failed run with expectation `Expected` always passes.
/// - With `ExpectedWithError` it passes exactly when the observed
///   error equals the declared one on all three components.
/// - With the deprecated `ExpectedWithCodeDeprecated` it passes
///   exactly when the run aborted with precisely the declared code.
/// - With no declared expectation, exhausting the execution bound is a
///   timeout; any other error is an unexpected error.
pub open spec fn spec_verdict(result: VmResultV, expected: Option<ExpectedFailureV>) -> VerdictV {
    match result {
        Result::Ok(_) => match expected {
            Option::None => VerdictV::Pass,
            Option::Some(_) => VerdictV::Fail(FailureReasonV::NoError(no_error_message())),
        },
        Result::Err(actual) => match expected {
            Option::Some(ExpectedFailureV::Expected) => VerdictV::Pass,
            Option::Some(ExpectedFailureV::ExpectedWithError(e)) => if actual == e {
                VerdictV::Pass
            } else {
                VerdictV::Fail(FailureReasonV::WrongError(no_error_message(), e, actual))
            },
            Option::Some(ExpectedFailureV::ExpectedWithCodeDeprecated(code)) => if abort_code_matches(
                actual,
                code,
            ) {
                VerdictV::Pass
            } else {
                VerdictV::Fail(
                    FailureReasonV::WrongAbortDeprecated(wrong_abort_message(), code, actual),
                )
            },
            Option::None => if actual.major_status == MAJOR_STATUS_OUT_OF_GAS {
                VerdictV::Fail(FailureReasonV::Timeout(timeout_message()))
            } else {
                VerdictV::Fail(
                    FailureReasonV::UnexpectedError(unexpected_error_message(), actual),
                )
            },
        },
    }
}

/// Decide one test from the observed result and the declared
/// expectation.  The virtual machine never reports a successful major
/// status together with an error, so that case is ruled out here.
pub fn match_outcome(result: &VmResult, expected: &Option<ExpectedFailure>) -> (v: Verdict)
    ensures
        v@ == spec_verdict(vm_result_view(*result), spec_expected_failure_view(*expected)),
{
    match result {
        Result::Ok(_) => match expected {
            Option::None => Verdict::Pass,
            Option::Some(_) => Verdict::Fail(FailureReason::no_error()),
        },
        Result::Err(actual) => match expected {
            Option::Some(ExpectedFailure::Expected) => Verdict::Pass,
            Option::Some(ExpectedFailure::ExpectedWithError(e)) => {
                if actual.is_same(e) {
                    Verdict::Pass
                } else {
                    Verdict::Fail(FailureReason::wrong_error(e.duplicate(), actual.duplicate()))
                }
            },
            Option::Some(ExpectedFailure::ExpectedWithCodeDeprecated(code)) => {
                let matches = actual.major_status == MAJOR_STATUS_ABORTED && match actual.sub_status {
                    Option::Some(s) => s == *code,
                    Option::None => false,
                };
                if matches {
                    assert(abort_code_matches(actual@, *code));
                    Verdict::Pass
                } else {
                    assert(!abort_code_matches(actual@, *code));
                    Verdict::Fail(FailureReason::wrong_abort_deprecated(*code, actual.duplicate()))
                }
            },
            Option::None => {
                if actual.major_status == MAJOR_STATUS_OUT_OF_GAS {
                    Verdict::Fail(FailureReason::timeout())
                } else {
                    Verdict::Fail(FailureReason::unexpected_error(actual.duplicate()))
                }
            },
        },
    }
}

/// Exhausting the execution bound under no declared expectation is
/// always recorded as a timeout, never as an unexpected error.
pub proof fn lemma_out_of_gas_is_timeout(actual: MoveErrorV)
    requires
        actual.major_status == MAJOR_STATUS_OUT_OF_GAS,
    ensures
        spec_verdict(Result::Err(actual), Option::None) == VerdictV::Fail(
            FailureReasonV::Timeout(timeout_message()),
        ),
        !(spec_verdict(Result::Err(actual), Option::None) matches VerdictV::Fail(
            FailureReasonV::UnexpectedError(_, _),
        )),
{
}

/// A run that exhausted the execution bound passes when any failure
/// was acceptable: the boundary behaviour of a zero gas budget.
pub proof fn lemma_out_of_gas_expected_passes(actual: MoveErrorV)
    requires
        actual.major_status == MAJOR_STATUS_OUT_OF_GAS,
    ensures
        spec_verdict(Result::Err(actual), Option::Some(ExpectedFailureV::Expected))
            == VerdictV::Pass,
{
}

} // verus!
