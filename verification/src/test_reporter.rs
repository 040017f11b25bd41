use crate::errors::{lemma_module_id_lt_asym, lemma_module_id_lt_irrefl, lemma_module_id_lt_le_trans, module_id_lt, spec_status_type, spec_verbiage, status_type, MoveError, MoveErrorV, StatusType};
use crate::plan::TestPlan;
use crate::text::{blen, center, colored, decimal, left, rules, seconds, spec_center, spec_colored, spec_decimal, spec_left, spec_repeat, spec_seconds};
use crate::text::{green_code, red_code};
use crate::plan::ModuleTestPlan;
use crate::errors::{ModuleId, ModuleIdV};
use vstd::prelude::*;

verus! {

/// What one backend returned for one test: the serialized return
/// values on success, or the error the virtual machine reported.
pub type VmResult = Result<Vec<Vec<u8>>, MoveError>;

pub type VmResultV = Result<Seq<Seq<u8>>, MoveErrorV>;

pub open spec fn vm_result_view(r: VmResult) -> VmResultV {
    match r {
        Result::Ok(values) => Result::Ok(values.deep_view()),
        Result::Err(e) => Result::Err(e@),
    }
}

/// Componentwise equality of two sequences of serialized values.
pub fn values_equal(a: &Vec<Vec<u8>>, b: &Vec<Vec<u8>>) -> (r: bool)
    ensures
        r == (a.deep_view() == b.deep_view()),
{
    if a.len() != b.len() {
        assert(a.deep_view().len() != b.deep_view().len());
        return false;
    }
    let n = a.len();
    let mut i: usize = 0;
    while i < n
        invariant
            n == a.len() == b.len(),
            i <= n,
            forall|j: int| 0 <= j < i ==> a.deep_view()[j] == b.deep_view()[j],
        decreases n - i,
    {
        let x = &a[i];
        let y = &b[i];
        proof {
            assert(a.deep_view()[i as int] =~= x@);
            assert(b.deep_view()[i as int] =~= y@);
        }
        if x.len() != y.len() {
            assert(a.deep_view()[i as int].len() != b.deep_view()[i as int].len());
            return false;
        }
        let m = x.len();
        let mut k: usize = 0;
        while k < m
            invariant
                m == x.len() == y.len(),
                k <= m,
                a.deep_view()[i as int] == x@,
                b.deep_view()[i as int] == y@,
                i < n == a.len() == b.len(),
                x == a@[i as int],
                y == b@[i as int],
                forall|j: int| 0 <= j < k ==> x@[j] == y@[j],
            decreases m - k,
        {
            if x[k] != y[k] {
                assert(a.deep_view()[i as int][k as int] != b.deep_view()[i as int][k as int]);
                return false;
            }
            k += 1;
        }
        assert(x@ =~= y@);
        i += 1;
    }
    assert(a.deep_view() =~= b.deep_view());
    true
}

/// Equality of two backend results: same success values, or the same
/// error on all components.
pub fn vm_results_equal(a: &VmResult, b: &VmResult) -> (r: bool)
    ensures
        r == (vm_result_view(*a) == vm_result_view(*b)),
{
    match (a, b) {
        (Result::Ok(x), Result::Ok(y)) => values_equal(x, y),
        (Result::Err(x), Result::Err(y)) => x.is_same(y),
        _ => false,
    }
}

pub fn duplicate_bytes(a: &Vec<u8>) -> (r: Vec<u8>)
    ensures
        r@ == a@,
{
    let mut out: Vec<u8> = Vec::new();
    let n = a.len();
    let mut i: usize = 0;
    while i < n
        invariant
            n == a.len(),
            i <= n,
            out@ == a@.take(i as int),
        decreases n - i,
    {
        out.push(a[i]);
        assert(out@ =~= a@.take(i as int + 1));
        i += 1;
    }
    assert(a@.take(n as int) =~= a@);
    out
}

pub fn duplicate_values(a: &Vec<Vec<u8>>) -> (r: Vec<Vec<u8>>)
    ensures
        r.deep_view() == a.deep_view(),
{
    let mut out: Vec<Vec<u8>> = Vec::new();
    let n = a.len();
    let mut i: usize = 0;
    while i < n
        invariant
            n == a.len(),
            i <= n,
            out@.len() == i,
            forall|j: int| 0 <= j < i ==> #[trigger] out.deep_view()[j] == a.deep_view()[j],
        decreases n - i,
    {
        let b = duplicate_bytes(&a[i]);
        let ghost prev_vec = out;
        out.push(b);
        proof {
            assert forall|j: int| 0 <= j < i + 1 implies #[trigger] out.deep_view()[j]
                == a.deep_view()[j] by {
                assert(out@ == prev_vec@.push(b));
                assert(out.deep_view()[j] == out@[j].deep_view());
                assert(a.deep_view()[j] == a@[j].deep_view());
                if j < i {
                    assert(out@[j] == prev_vec@[j]);
                    assert(prev_vec.deep_view()[j] == a.deep_view()[j]);
                    assert(prev_vec.deep_view()[j] == prev_vec@[j].deep_view());
                } else {
                    assert(out@[j] == b);
                    assert(b.deep_view() =~= a@[j].deep_view());
                }
            }
        }
        i += 1;
    }
    assert(out.deep_view() =~= a.deep_view());
    out
}

pub fn duplicate_vm_result(a: &VmResult) -> (r: VmResult)
    ensures
        vm_result_view(r) == vm_result_view(*a),
{
    match a {
        Result::Ok(values) => Result::Ok(duplicate_values(values)),
        Result::Err(e) => Result::Err(e.duplicate()),
    }
}

/// Identity and cost of one executed test: the entry function's name,
/// the elapsed wall-clock time in nanoseconds, and the number of gas
/// units consumed.
#[derive(Debug, Clone)]
pub struct TestRunInfo {
    pub function_ident: String,
    pub elapsed_nanos: u64,
    pub instructions_executed: u64,
}

#[verifier::ext_equal]
pub ghost struct TestRunInfoV {
    pub function_ident: Seq<char>,
    pub elapsed_nanos: u64,
    pub instructions_executed: u64,
}

impl View for TestRunInfo {
    type V = TestRunInfoV;

    open spec fn view(&self) -> TestRunInfoV {
        TestRunInfoV {
            function_ident: self.function_ident@,
            elapsed_nanos: self.elapsed_nanos,
            instructions_executed: self.instructions_executed,
        }
    }
}

impl TestRunInfo {
    pub fn new(function_ident: String, elapsed_nanos: u64, instructions_executed: u64) -> (r:
        TestRunInfo)
        ensures
            r@ == (TestRunInfoV { function_ident: function_ident@, elapsed_nanos, instructions_executed }),
    {
        TestRunInfo { function_ident, elapsed_nanos, instructions_executed }
    }

    pub fn duplicate(&self) -> (r: TestRunInfo)
        ensures
            r == *self,
    {
        let r = TestRunInfo {
            function_ident: self.function_ident.clone(),
            elapsed_nanos: self.elapsed_nanos,
            instructions_executed: self.instructions_executed,
        };
        assert(r == *self);
        r
    }
}

pub open spec fn no_error_message() -> Seq<char> {
    "Test did not error as expected"@
}

pub open spec fn wrong_abort_message() -> Seq<char> {
    "Test did not abort with expected code"@
}

pub open spec fn unexpected_error_message() -> Seq<char> {
    "Test was not expected to error"@
}

pub open spec fn timeout_message() -> Seq<char> {
    "Test timed out"@
}

/// Why a test failed.
#[derive(Debug)]
pub enum FailureReason {
    /// Declared to fail, but executed successfully.
    NoError(String),
    /// Failed with a different error than declared.
    WrongError(String, MoveError, MoveError),
    /// The deprecated abort-code form did not match.
    WrongAbortDeprecated(String, u64, MoveError),
    /// Succeeding was expected, but the test failed.
    UnexpectedError(String, MoveError),
    /// The execution bound was exhausted.
    Timeout(String),
    /// The two backends returned different results.
    Mismatch { primary_return_values: VmResult, reference_return_values: VmResult },
    /// The reference backend's property checker reported a violation.
    Property(String),
}

#[verifier::ext_equal]
pub ghost enum FailureReasonV {
    NoError(Seq<char>),
    WrongError(Seq<char>, MoveErrorV, MoveErrorV),
    WrongAbortDeprecated(Seq<char>, u64, MoveErrorV),
    UnexpectedError(Seq<char>, MoveErrorV),
    Timeout(Seq<char>),
    Mismatch { primary_return_values: VmResultV, reference_return_values: VmResultV },
    Property(Seq<char>),
}

impl View for FailureReason {
    type V = FailureReasonV;

    open spec fn view(&self) -> FailureReasonV {
        match self {
            FailureReason::NoError(m) => FailureReasonV::NoError(m@),
            FailureReason::WrongError(m, e, a) => FailureReasonV::WrongError(m@, e@, a@),
            FailureReason::WrongAbortDeprecated(m, c, a) => FailureReasonV::WrongAbortDeprecated(
                m@,
                *c,
                a@,
            ),
            FailureReason::UnexpectedError(m, e) => FailureReasonV::UnexpectedError(m@, e@),
            FailureReason::Timeout(m) => FailureReasonV::Timeout(m@),
            FailureReason::Mismatch { primary_return_values, reference_return_values } => FailureReasonV::Mismatch {
                primary_return_values: vm_result_view(*primary_return_values),
                reference_return_values: vm_result_view(*reference_return_values),
            },
            FailureReason::Property(m) => FailureReasonV::Property(m@),
        }
    }
}

impl FailureReason {
    pub fn no_error() -> (r: FailureReason)
        ensures
            r@ == FailureReasonV::NoError(no_error_message()),
    {
        FailureReason::NoError(String::from_str("Test did not error as expected"))
    }

    pub fn wrong_error(expected: MoveError, actual: MoveError) -> (r: FailureReason)
        ensures
            r@ == FailureReasonV::WrongError(no_error_message(), expected@, actual@),
    {
        FailureReason::WrongError(
            String::from_str("Test did not error as expected"),
            expected,
            actual,
        )
    }

    pub fn wrong_abort_deprecated(expected: u64, actual: MoveError) -> (r: FailureReason)
        ensures
            r@ == FailureReasonV::WrongAbortDeprecated(wrong_abort_message(), expected, actual@),
    {
        FailureReason::WrongAbortDeprecated(
            String::from_str("Test did not abort with expected code"),
            expected,
            actual,
        )
    }

    pub fn unexpected_error(error: MoveError) -> (r: FailureReason)
        ensures
            r@ == FailureReasonV::UnexpectedError(unexpected_error_message(), error@),
    {
        FailureReason::UnexpectedError(String::from_str("Test was not expected to error"), error)
    }

    pub fn timeout() -> (r: FailureReason)
        ensures
            r@ == FailureReasonV::Timeout(timeout_message()),
    {
        FailureReason::Timeout(String::from_str("Test timed out"))
    }

    pub fn mismatch(primary_return_values: VmResult, reference_return_values: VmResult) -> (r:
        FailureReason)
        ensures
            r@ == (FailureReasonV::Mismatch {
                primary_return_values: vm_result_view(primary_return_values),
                reference_return_values: vm_result_view(reference_return_values),
            }),
    {
        FailureReason::Mismatch { primary_return_values, reference_return_values }
    }

    pub fn property(details: String) -> (r: FailureReason)
        ensures
            r@ == FailureReasonV::Property(details@),
    {
        FailureReason::Property(details)
    }

    /// Whether this reason is a timeout; the driver reports such a
    /// test with a `TIMEOUT` status line instead of `FAIL`.
    pub fn is_timeout(&self) -> (r: bool)
        ensures
            r == (self@ is Timeout),
    {
        match self {
            FailureReason::Timeout(_) => true,
            _ => false,
        }
    }
}

/// A failed test: its run identity and cost, the virtual-machine
/// error kept for rendering (when there was one), and the reason.
#[derive(Debug)]
pub struct TestFailure {
    pub test_run_info: TestRunInfo,
    pub vm_error: Option<MoveError>,
    pub failure_reason: FailureReason,
}

#[verifier::ext_equal]
pub ghost struct TestFailureV {
    pub test_run_info: TestRunInfoV,
    pub vm_error: Option<MoveErrorV>,
    pub failure_reason: FailureReasonV,
}

impl View for TestFailure {
    type V = TestFailureV;

    open spec fn view(&self) -> TestFailureV {
        TestFailureV {
            test_run_info: self.test_run_info@,
            vm_error: spec_opt_error_view(self.vm_error),
            failure_reason: self.failure_reason@,
        }
    }
}

impl TestFailure {
    pub fn new(failure_reason: FailureReason, test_run_info: TestRunInfo, vm_error: Option<
        MoveError,
    >) -> (r: TestFailure)
        ensures
            r.test_run_info == test_run_info,
            r.vm_error == vm_error,
            r.failure_reason == failure_reason,
    {
        TestFailure { test_run_info, vm_error, failure_reason }
    }
}

/// The views of passed records.
pub open spec fn passed_view(s: Seq<(ModuleId, TestRunInfo)>) -> Seq<(ModuleIdV, TestRunInfoV)> {
    s.map_values(|p: (ModuleId, TestRunInfo)| (p.0@, p.1@))
}

/// The views of failed records.
pub open spec fn failed_view(s: Seq<(ModuleId, TestFailure)>) -> Seq<(ModuleIdV, TestFailureV)> {
    s.map_values(|p: (ModuleId, TestFailure)| (p.0@, p.1@))
}

/// The views of per-test output records.
pub open spec fn output_view(s: Seq<(ModuleId, String, String)>) -> Seq<
    (ModuleIdV, Seq<char>, Seq<char>),
> {
    s.map_values(|p: (ModuleId, String, String)| (p.0@, p.1@, p.2@))
}

/// A record placed into the order the maps keep: after every record
/// whose module does not order above its own, before the rest.
pub open spec fn spec_place<T>(s: Seq<(ModuleIdV, T)>, x: (ModuleIdV, T)) -> Seq<(ModuleIdV, T)>
    decreases s.len(),
{
    if s.len() == 0 {
        seq![x]
    } else if module_id_lt(x.0, s.last().0) {
        spec_place(s.drop_last(), x).push(s.last())
    } else {
        s.push(x)
    }
}

/// An output record placed the same way.
pub open spec fn spec_place_output(
    s: Seq<(ModuleIdV, Seq<char>, Seq<char>)>,
    x: (ModuleIdV, Seq<char>, Seq<char>),
) -> Seq<(ModuleIdV, Seq<char>, Seq<char>)>
    decreases s.len(),
{
    if s.len() == 0 {
        seq![x]
    } else if module_id_lt(x.0, s.last().0) {
        spec_place_output(s.drop_last(), x).push(s.last())
    } else {
        s.push(x)
    }
}

/// Records ordered by module identifier, ties keeping their relative
/// order: the shape an ordered map's entries come out in.
pub open spec fn sorted_by_module<T>(s: Seq<(ModuleIdV, T)>) -> bool {
    forall|i: int, j: int|
        0 <= i < j < s.len() ==> !module_id_lt((#[trigger] s[j]).0, (#[trigger] s[i]).0)
}

/// Output records ordered the same way.
pub open spec fn sorted_output(s: Seq<(ModuleIdV, Seq<char>, Seq<char>)>) -> bool {
    forall|i: int, j: int|
        0 <= i < j < s.len() ==> !module_id_lt((#[trigger] s[j]).0, (#[trigger] s[i]).0)
}

/// A sequence extended by one member, map-fashion: a member already
/// present is not recorded again; a new one is placed with its
/// module's group.
pub open spec fn spec_insert<T>(s: Seq<(ModuleIdV, T)>, x: (ModuleIdV, T)) -> Seq<(ModuleIdV, T)> {
    if s.contains(x) {
        s
    } else {
        spec_place(s, x)
    }
}

/// A sequence extended by many members, map-fashion, in their order.
pub open spec fn spec_merge_set<T>(
    base: Seq<(ModuleIdV, T)>,
    extra: Seq<(ModuleIdV, T)>,
) -> Seq<(ModuleIdV, T)>
    decreases extra.len(),
{
    if extra.len() == 0 {
        base
    } else {
        spec_insert(spec_merge_set(base, extra.drop_last()), extra.last())
    }
}

/// What placing adds: exactly the one member.
pub proof fn lemma_place_contains<T>(s: Seq<(ModuleIdV, T)>, x: (ModuleIdV, T))
    ensures
        spec_place(s, x).len() == s.len() + 1,
        forall|y: (ModuleIdV, T)|
            #[trigger] spec_place(s, x).contains(y) <==> s.contains(y) || y == x,
    decreases s.len(),
{
    let t = spec_place(s, x);
    if s.len() == 0 {
        assert forall|y: (ModuleIdV, T)| #[trigger] t.contains(y) implies s.contains(y) || y
            == x by {
            let q = choose|q: int| 0 <= q < t.len() && t[q] == y;
        }
        assert(t[0] == x);
    } else if module_id_lt(x.0, s.last().0) {
        lemma_place_contains(s.drop_last(), x);
        let prev = spec_place(s.drop_last(), x);
        assert forall|y: (ModuleIdV, T)| #[trigger] t.contains(y) implies s.contains(y) || y
            == x by {
            let q = choose|q: int| 0 <= q < t.len() && t[q] == y;
            if q < prev.len() {
                assert(prev.contains(y));
                if s.drop_last().contains(y) {
                    let p = choose|p: int| 0 <= p < s.drop_last().len() && s.drop_last()[p] == y;
                    assert(s[p] == y);
                }
            } else {
                assert(y == s.last());
                assert(s[s.len() - 1] == y);
            }
        }
        assert forall|y: (ModuleIdV, T)| s.contains(y) || y == x implies #[trigger] t.contains(
            y,
        ) by {
            if y == x {
                assert(prev.contains(x));
                let p = choose|p: int| 0 <= p < prev.len() && prev[p] == y;
                assert(t[p] == y);
            } else if s.contains(y) {
                let q = choose|q: int| 0 <= q < s.len() && s[q] == y;
                if q < s.len() - 1 {
                    assert(s.drop_last()[q] == y);
                    assert(prev.contains(y));
                    let p = choose|p: int| 0 <= p < prev.len() && prev[p] == y;
                    assert(t[p] == y);
                } else {
                    assert(t[t.len() - 1] == y);
                }
            }
        }
    } else {
        assert forall|y: (ModuleIdV, T)| #[trigger] t.contains(y) implies s.contains(y) || y
            == x by {
            let q = choose|q: int| 0 <= q < t.len() && t[q] == y;
            if q < s.len() {
                assert(s[q] == y);
            }
        }
        assert forall|y: (ModuleIdV, T)| s.contains(y) || y == x implies #[trigger] t.contains(
            y,
        ) by {
            if y == x {
                assert(t[t.len() - 1] == y);
            } else if s.contains(y) {
                let q = choose|q: int| 0 <= q < s.len() && s[q] == y;
                assert(t[q] == y);
            }
        }
    }
}

/// Placing an absent member keeps records distinct.
pub proof fn lemma_place_no_dup<T>(s: Seq<(ModuleIdV, T)>, x: (ModuleIdV, T))
    requires
        s.no_duplicates(),
        !s.contains(x),
    ensures
        spec_place(s, x).no_duplicates(),
    decreases s.len(),
{
    let t = spec_place(s, x);
    if s.len() == 0 {
    } else if module_id_lt(x.0, s.last().0) {
        assert(s.drop_last().no_duplicates());
        assert(!s.drop_last().contains(x)) by {
            if s.drop_last().contains(x) {
                let q = choose|q: int| 0 <= q < s.drop_last().len() && s.drop_last()[q] == x;
                assert(s[q] == x);
            }
        }
        lemma_place_no_dup(s.drop_last(), x);
        lemma_place_contains(s.drop_last(), x);
        let prev = spec_place(s.drop_last(), x);
        assert forall|i: int, j: int| 0 <= i < j < t.len() implies t[i] != t[j] by {
            if j == t.len() - 1 {
                assert(t[j] == s.last());
                assert(prev.contains(t[i]));
                if t[i] == s.last() {
                    if s.drop_last().contains(s.last()) {
                        let q = choose|q: int|
                            0 <= q < s.drop_last().len() && s.drop_last()[q] == s.last();
                        assert(s[q] == s[s.len() - 1]);
                    } else {
                        assert(t[i] == x);
                        lemma_module_id_lt_irrefl(x.0);
                    }
                }
            }
        }
    } else {
        assert forall|i: int, j: int| 0 <= i < j < t.len() implies t[i] != t[j] by {
            if j == t.len() - 1 {
                assert(t[i] == s[i]);
                assert(s.contains(s[i]));
            }
        }
    }
}

/// Placing keeps the module order.
pub proof fn lemma_place_sorted<T>(s: Seq<(ModuleIdV, T)>, x: (ModuleIdV, T))
    requires
        sorted_by_module(s),
    ensures
        sorted_by_module(spec_place(s, x)),
    decreases s.len(),
{
    let t = spec_place(s, x);
    if s.len() == 0 {
    } else if module_id_lt(x.0, s.last().0) {
        assert(sorted_by_module(s.drop_last()));
        lemma_place_sorted(s.drop_last(), x);
        lemma_place_contains(s.drop_last(), x);
        let prev = spec_place(s.drop_last(), x);
        assert forall|i: int, j: int| 0 <= i < j < t.len() implies !module_id_lt(
            (#[trigger] t[j]).0,
            (#[trigger] t[i]).0,
        ) by {
            if j == t.len() - 1 {
                assert(t[j] == s.last());
                assert(prev.contains(t[i]));
                if t[i] == x {
                    lemma_module_id_lt_asym(x.0, s.last().0);
                } else {
                    let q = choose|q: int| 0 <= q < s.drop_last().len() && s.drop_last()[q] == t[i];
                    assert(s[q] == t[i]);
                }
            }
        }
    } else {
        assert forall|i: int, j: int| 0 <= i < j < t.len() implies !module_id_lt(
            (#[trigger] t[j]).0,
            (#[trigger] t[i]).0,
        ) by {
            if j == t.len() - 1 {
                assert(t[j] == x && t[i] == s[i]);
                if module_id_lt(x.0, s[i].0) {
                    assert(!module_id_lt(s.last().0, s[i].0));
                    lemma_module_id_lt_le_trans(x.0, s[i].0, s.last().0);
                }
            }
        }
    }
}

/// Where a record lands: before the first record of a strictly
/// greater module.
pub proof fn lemma_place_at<T>(s: Seq<(ModuleIdV, T)>, x: (ModuleIdV, T), idx: int)
    requires
        0 <= idx <= s.len(),
        forall|q: int| idx <= q < s.len() ==> module_id_lt(x.0, (#[trigger] s[q]).0),
        idx > 0 ==> !module_id_lt(x.0, s[idx - 1].0),
    ensures
        spec_place(s, x) == s.take(idx) + seq![x] + s.skip(idx),
    decreases s.len(),
{
    if idx == s.len() {
        assert(spec_place(s, x) =~= s.take(idx) + seq![x] + s.skip(idx));
    } else {
        assert(module_id_lt(x.0, s.last().0));
        lemma_place_at(s.drop_last(), x, idx);
        assert(s.drop_last().take(idx) =~= s.take(idx));
        assert(spec_place(s, x) =~= s.take(idx) + seq![x] + s.skip(idx));
    }
}

/// The output records that do not carry the given (module, test) key.
pub open spec fn spec_output_without(
    s: Seq<(ModuleIdV, Seq<char>, Seq<char>)>,
    module_id: ModuleIdV,
    test_name: Seq<char>,
) -> Seq<(ModuleIdV, Seq<char>, Seq<char>)>
    decreases s.len(),
{
    if s.len() == 0 {
        s
    } else {
        let prev = spec_output_without(s.drop_last(), module_id, test_name);
        if s.last().0 == module_id && s.last().1 == test_name {
            prev
        } else {
            prev.push(s.last())
        }
    }
}

/// One output record written into the map: any earlier record under
/// the same (module, test) key gives way, and the new record is
/// placed with its module's group.
pub open spec fn spec_put_output(
    s: Seq<(ModuleIdV, Seq<char>, Seq<char>)>,
    record: (ModuleIdV, Seq<char>, Seq<char>),
) -> Seq<(ModuleIdV, Seq<char>, Seq<char>)> {
    spec_place_output(spec_output_without(s, record.0, record.1), record)
}

/// Many output records written into the map, in their order: on a
/// shared key the later record wins.
pub open spec fn spec_merge_outputs(
    base: Seq<(ModuleIdV, Seq<char>, Seq<char>)>,
    extra: Seq<(ModuleIdV, Seq<char>, Seq<char>)>,
) -> Seq<(ModuleIdV, Seq<char>, Seq<char>)>
    decreases extra.len(),
{
    if extra.len() == 0 {
        base
    } else {
        spec_put_output(spec_merge_outputs(base, extra.drop_last()), extra.last())
    }
}

/// No two output records under one (module, test-name) key.
pub open spec fn output_keys_unique(s: Seq<(ModuleIdV, Seq<char>, Seq<char>)>) -> bool {
    forall|i: int, j: int|
        0 <= i < j < s.len() ==> !((#[trigger] s[i]).0 == (#[trigger] s[j]).0 && s[i].1 == s[j].1)
}

/// Whether two run records are the same.
pub fn run_infos_same(a: &TestRunInfo, b: &TestRunInfo) -> (r: bool)
    ensures
        r == (a@ == b@),
{
    let r = a.function_ident == b.function_ident && a.elapsed_nanos == b.elapsed_nanos
        && a.instructions_executed == b.instructions_executed;
    proof {
        if r {
            assert(a@ == b@);
        }
    }
    r
}

pub open spec fn spec_opt_error_view(o: Option<MoveError>) -> Option<MoveErrorV> {
    match o {
        Option::None => Option::None,
        Option::Some(e) => Option::Some(e@),
    }
}

fn opt_errors_same(a: &Option<MoveError>, b: &Option<MoveError>) -> (r: bool)
    ensures
        r == (spec_opt_error_view(*a) == spec_opt_error_view(*b)),
{
    match (a, b) {
        (Option::None, Option::None) => true,
        (Option::Some(x), Option::Some(y)) => x.is_same(y),
        _ => false,
    }
}

/// Whether two failure reasons are the same on every component.
pub fn failure_reasons_same(a: &FailureReason, b: &FailureReason) -> (r: bool)
    ensures
        r == (a@ == b@),
{
    match a {
        FailureReason::NoError(m1) => match b {
            FailureReason::NoError(m2) => {
                let r = *m1 == *m2;
                proof {
                    if r {
                        assert(a@ == b@);
                    }
                }
                r
            },
            _ => {
                proof {
                    assert(!(b@ is NoError));
                }
                false
            },
        },
        FailureReason::WrongError(m1, e1, x1) => match b {
            FailureReason::WrongError(m2, e2, x2) => {
                let r = *m1 == *m2 && e1.is_same(e2) && x1.is_same(x2);
                proof {
                    if r {
                        assert(a@ == b@);
                    }
                }
                r
            },
            _ => {
                proof {
                    assert(!(b@ is WrongError));
                }
                false
            },
        },
        FailureReason::WrongAbortDeprecated(m1, c1, x1) => match b {
            FailureReason::WrongAbortDeprecated(m2, c2, x2) => {
                let r = *m1 == *m2 && *c1 == *c2 && x1.is_same(x2);
                proof {
                    if r {
                        assert(a@ == b@);
                    }
                }
                r
            },
            _ => {
                proof {
                    assert(!(b@ is WrongAbortDeprecated));
                }
                false
            },
        },
        FailureReason::UnexpectedError(m1, e1) => match b {
            FailureReason::UnexpectedError(m2, e2) => {
                let r = *m1 == *m2 && e1.is_same(e2);
                proof {
                    if r {
                        assert(a@ == b@);
                    }
                }
                r
            },
            _ => {
                proof {
                    assert(!(b@ is UnexpectedError));
                }
                false
            },
        },
        FailureReason::Timeout(m1) => match b {
            FailureReason::Timeout(m2) => {
                let r = *m1 == *m2;
                proof {
                    if r {
                        assert(a@ == b@);
                    }
                }
                r
            },
            _ => {
                proof {
                    assert(!(b@ is Timeout));
                }
                false
            },
        },
        FailureReason::Mismatch { primary_return_values: p1, reference_return_values: r1 } => match b {
            FailureReason::Mismatch { primary_return_values: p2, reference_return_values: r2 } => {
                let r = vm_results_equal(p1, p2) && vm_results_equal(r1, r2);
                proof {
                    if r {
                        assert(a@ == b@);
                    }
                }
                r
            },
            _ => {
                proof {
                    assert(!(b@ is Mismatch));
                }
                false
            },
        },
        FailureReason::Property(m1) => match b {
            FailureReason::Property(m2) => {
                let r = *m1 == *m2;
                proof {
                    if r {
                        assert(a@ == b@);
                    }
                }
                r
            },
            _ => {
                proof {
                    assert(!(b@ is Property));
                }
                false
            },
        },
    }
}

/// Whether two failure records are the same on every component.
pub fn failures_same(a: &TestFailure, b: &TestFailure) -> (r: bool)
    ensures
        r == (a@ == b@),
{
    let r = run_infos_same(&a.test_run_info, &b.test_run_info) && opt_errors_same(
        &a.vm_error,
        &b.vm_error,
    ) && failure_reasons_same(&a.failure_reason, &b.failure_reason);
    proof {
        if r {
            assert(a@ == b@);
        }
    }
    r
}

/// The accumulated outcome of a run: which tests passed and which
/// failed, each under the module it belongs to, plus the recorded
/// per-test textual output, a map keyed by (module, test name).
/// Records are kept in the order they were first recorded; a passed
/// or failed record never repeats, and no two output records share a
/// key.
#[derive(Debug)]
pub struct TestStatistics {
    pub passed: Vec<(ModuleId, TestRunInfo)>,
    pub failed: Vec<(ModuleId, TestFailure)>,
    pub output: Vec<(ModuleId, String, String)>,
}

#[verifier::ext_equal]
pub ghost struct TestStatisticsV {
    pub passed: Seq<(ModuleIdV, TestRunInfoV)>,
    pub failed: Seq<(ModuleIdV, TestFailureV)>,
    pub output: Seq<(ModuleIdV, Seq<char>, Seq<char>)>,
}

impl View for TestStatistics {
    type V = TestStatisticsV;

    open spec fn view(&self) -> TestStatisticsV {
        TestStatisticsV {
            passed: passed_view(self.passed@),
            failed: failed_view(self.failed@),
            output: output_view(self.output@),
        }
    }
}

impl TestStatisticsV {
    /// Statistics with nothing recorded.
    pub open spec fn empty() -> TestStatisticsV {
        TestStatisticsV {
            passed: Seq::empty(),
            failed: Seq::empty(),
            output: Seq::empty(),
        }
    }

    /// The passed records, order forgotten.
    pub open spec fn passed_set(self) -> Set<(ModuleIdV, TestRunInfoV)> {
        self.passed.to_set()
    }

    /// The failed records, order forgotten.
    pub open spec fn failed_set(self) -> Set<(ModuleIdV, TestFailureV)> {
        self.failed.to_set()
    }

    pub open spec fn output_set(self) -> Set<(ModuleIdV, Seq<char>, Seq<char>)> {
        self.output.to_set()
    }

    /// The keys-unique invariant the maps keep: no repeated passed or
    /// failed record, no two outputs under one (module, test) key.
    pub open spec fn wf(self) -> bool {
        &&& self.passed.no_duplicates()
        &&& self.failed.no_duplicates()
        &&& output_keys_unique(self.output)
        &&& sorted_by_module(self.passed)
        &&& sorted_by_module(self.failed)
        &&& sorted_output(self.output)
    }

    /// Two statistics merged: passed and failed records united
    /// set-fashion, outputs united map-fashion with the other side's
    /// value winning on a shared key.
    pub open spec fn merge(self, other: TestStatisticsV) -> TestStatisticsV {
        TestStatisticsV {
            passed: spec_merge_set(self.passed, other.passed),
            failed: spec_merge_set(self.failed, other.failed),
            output: spec_merge_outputs(self.output, other.output),
        }
    }

    pub open spec fn is_empty(self) -> bool {
        self.passed.len() == 0 && self.failed.len() == 0 && self.output.len() == 0
    }
}

impl Default for TestStatistics {
    fn default() -> (r: Self)
        ensures
            r@.is_empty(),
            r@.wf(),
    {
        TestStatistics::new()
    }
}

fn insert_passed(records: &mut Vec<(ModuleId, TestRunInfo)>, module_id: ModuleId, info: TestRunInfo)
    ensures
        passed_view(final(records)@) == spec_insert(
            passed_view(old(records)@),
            (module_id@, info@),
        ),
{
    let ghost rec = (module_id@, info@);
    let ghost view0 = passed_view(records@);
    let n = records.len();
    let mut i: usize = 0;
    while i < n
        invariant
            n == records@.len(),
            view0 == passed_view(records@),
            rec == (module_id@, info@),
            view0.len() == n,
            i <= n,
            forall|j: int| 0 <= j < i ==> #[trigger] view0[j] != rec,
        decreases n - i,
    {
        let entry = &records[i];
        proof {
            assert(view0[i as int] == (entry.0@, entry.1@));
        }
        if entry.0.is_same(&module_id) && run_infos_same(&entry.1, &info) {
            proof {
                assert(view0.contains(rec));
            }
            return ;
        }
        i += 1;
    }
    proof {
        assert(!view0.contains(rec));
    }
    let idx = place_index_passed(records, &module_id);
    let ghost prev = records@;
    records.insert(idx, (module_id, info));
    proof {
        assert(records@ == prev.insert(idx as int, (module_id, info)));
        lemma_place_at(view0, rec, idx as int);
        assert(passed_view(records@) =~= view0.take(idx as int) + seq![rec] + view0.skip(
            idx as int,
        ));
    }
}

/// The position a new record of this module takes among the passed
/// records: after every record whose module does not order above it.
fn place_index_passed(records: &Vec<(ModuleId, TestRunInfo)>, module_id: &ModuleId) -> (idx: usize)
    ensures
        idx <= records@.len(),
        forall|q: int|
            idx <= q < records@.len() ==> module_id_lt(
                module_id@,
                (#[trigger] passed_view(records@)[q]).0,
            ),
        idx > 0 ==> !module_id_lt(module_id@, passed_view(records@)[idx - 1].0),
{
    let ghost view0 = passed_view(records@);
    let mut idx = records.len();
    while idx > 0
        invariant
            view0 == passed_view(records@),
            view0.len() == records@.len(),
            idx <= records@.len(),
            forall|q: int|
                idx <= q < records@.len() ==> module_id_lt(module_id@, (#[trigger] view0[q]).0),
        decreases idx,
    {
        let entry = &records[idx - 1];
        proof {
            assert(view0[idx - 1] == (entry.0@, entry.1@));
        }
        if module_id.is_below(&entry.0) {
            idx -= 1;
        } else {
            return idx;
        }
    }
    idx
}

fn insert_failed(records: &mut Vec<(ModuleId, TestFailure)>, module_id: ModuleId, failure: TestFailure)
    ensures
        failed_view(final(records)@) == spec_insert(
            failed_view(old(records)@),
            (module_id@, failure@),
        ),
{
    let ghost rec = (module_id@, failure@);
    let ghost view0 = failed_view(records@);
    let n = records.len();
    let mut i: usize = 0;
    while i < n
        invariant
            n == records@.len(),
            view0 == failed_view(records@),
            rec == (module_id@, failure@),
            view0.len() == n,
            i <= n,
            forall|j: int| 0 <= j < i ==> #[trigger] view0[j] != rec,
        decreases n - i,
    {
        let entry = &records[i];
        proof {
            assert(view0[i as int] == (entry.0@, entry.1@));
        }
        if entry.0.is_same(&module_id) && failures_same(&entry.1, &failure) {
            proof {
                assert(view0.contains(rec));
            }
            return ;
        }
        i += 1;
    }
    proof {
        assert(!view0.contains(rec));
    }
    let idx = place_index_failed(records, &module_id);
    let ghost prev = records@;
    records.insert(idx, (module_id, failure));
    proof {
        assert(records@ == prev.insert(idx as int, (module_id, failure)));
        lemma_place_at(view0, rec, idx as int);
        assert(failed_view(records@) =~= view0.take(idx as int) + seq![rec] + view0.skip(
            idx as int,
        ));
    }
}

/// The position a new record of this module takes among the failed
/// records: after every record whose module does not order above it.
fn place_index_failed(records: &Vec<(ModuleId, TestFailure)>, module_id: &ModuleId) -> (idx: usize)
    ensures
        idx <= records@.len(),
        forall|q: int|
            idx <= q < records@.len() ==> module_id_lt(
                module_id@,
                (#[trigger] failed_view(records@)[q]).0,
            ),
        idx > 0 ==> !module_id_lt(module_id@, failed_view(records@)[idx - 1].0),
{
    let ghost view0 = failed_view(records@);
    let mut idx = records.len();
    while idx > 0
        invariant
            view0 == failed_view(records@),
            view0.len() == records@.len(),
            idx <= records@.len(),
            forall|q: int|
                idx <= q < records@.len() ==> module_id_lt(module_id@, (#[trigger] view0[q]).0),
        decreases idx,
    {
        let entry = &records[idx - 1];
        proof {
            assert(view0[idx - 1] == (entry.0@, entry.1@));
        }
        if module_id.is_below(&entry.0) {
            idx -= 1;
        } else {
            return idx;
        }
    }
    idx
}

fn put_output(
    records: &mut Vec<(ModuleId, String, String)>,
    module_id: ModuleId,
    test_name: String,
    output: String,
)
    ensures
        output_view(final(records)@) == spec_put_output(
            output_view(old(records)@),
            (module_id@, test_name@, output@),
        ),
{
    let ghost view0 = output_view(records@);
    let mut taken: Vec<(ModuleId, String, String)> = Vec::new();
    core::mem::swap(records, &mut taken);
    let mut kept: Vec<(ModuleId, String, String)> = Vec::new();
    let n = taken.len();
    let mut i: usize = 0;
    proof {
        assert(output_view(taken@) == view0);
        assert(output_view(kept@) =~= spec_output_without(view0.take(0), module_id@, test_name@));
    }
    while i < n
        invariant
            n == taken@.len(),
            view0 == output_view(taken@),
            view0.len() == n,
            i <= n,
            output_view(kept@) == spec_output_without(
                view0.take(i as int),
                module_id@,
                test_name@,
            ),
        decreases n - i,
    {
        let entry = &taken[i];
        proof {
            assert(view0[i as int] == (entry.0@, entry.1@, entry.2@));
            assert(view0.take(i + 1).drop_last() =~= view0.take(i as int));
            assert(view0.take(i + 1).last() == view0[i as int]);
        }
        if entry.0.is_same(&module_id) && entry.1 == test_name {
            proof {
                assert(output_view(kept@) =~= spec_output_without(
                    view0.take(i + 1),
                    module_id@,
                    test_name@,
                ));
            }
        } else {
            let ghost prev = kept@;
            kept.push((entry.0.duplicate(), entry.1.clone(), entry.2.clone()));
            proof {
                assert(kept@.last().0@ == entry.0@ && kept@.last().1@ == entry.1@
                    && kept@.last().2@ == entry.2@);
                assert(output_view(kept@) =~= spec_output_without(
                    view0.take(i + 1),
                    module_id@,
                    test_name@,
                ));
            }
        }
        i += 1;
    }
    proof {
        assert(view0.take(n as int) =~= view0);
    }
    let ghost rec = (module_id@, test_name@, output@);
    let ghost without_view = output_view(kept@);
    let idx = place_index_output(&kept, &module_id);
    let ghost without = kept@;
    kept.insert(idx, (module_id, test_name, output));
    proof {
        assert(kept@ == without.insert(idx as int, (module_id, test_name, output)));
        lemma_place_output_at(without_view, rec, idx as int);
        assert(output_view(kept@) =~= without_view.take(idx as int) + seq![rec]
            + without_view.skip(idx as int));
        assert(output_view(kept@) =~= spec_put_output(view0, rec));
    }
    *records = kept;
}

/// The position a new record of this module takes among the output
/// records: after every record whose module does not order above it.
fn place_index_output(records: &Vec<(ModuleId, String, String)>, module_id: &ModuleId) -> (idx:
    usize)
    ensures
        idx <= records@.len(),
        forall|q: int|
            idx <= q < records@.len() ==> module_id_lt(
                module_id@,
                (#[trigger] output_view(records@)[q]).0,
            ),
        idx > 0 ==> !module_id_lt(module_id@, output_view(records@)[idx - 1].0),
{
    let ghost view0 = output_view(records@);
    let mut idx = records.len();
    while idx > 0
        invariant
            view0 == output_view(records@),
            view0.len() == records@.len(),
            idx <= records@.len(),
            forall|q: int|
                idx <= q < records@.len() ==> module_id_lt(module_id@, (#[trigger] view0[q]).0),
        decreases idx,
    {
        let entry = &records[idx - 1];
        proof {
            assert(view0[idx - 1] == (entry.0@, entry.1@, entry.2@));
        }
        if module_id.is_below(&entry.0) {
            idx -= 1;
        } else {
            return idx;
        }
    }
    idx
}

/// Where an output record lands: before the first record of a
/// strictly greater module.
proof fn lemma_place_output_at(
    s: Seq<(ModuleIdV, Seq<char>, Seq<char>)>,
    x: (ModuleIdV, Seq<char>, Seq<char>),
    idx: int,
)
    requires
        0 <= idx <= s.len(),
        forall|q: int| idx <= q < s.len() ==> module_id_lt(x.0, (#[trigger] s[q]).0),
        idx > 0 ==> !module_id_lt(x.0, s[idx - 1].0),
    ensures
        spec_place_output(s, x) == s.take(idx) + seq![x] + s.skip(idx),
    decreases s.len(),
{
    if idx == s.len() {
        assert(spec_place_output(s, x) =~= s.take(idx) + seq![x] + s.skip(idx));
    } else {
        assert(module_id_lt(x.0, s.last().0));
        lemma_place_output_at(s.drop_last(), x, idx);
        assert(s.drop_last().take(idx) =~= s.take(idx));
        assert(spec_place_output(s, x) =~= s.take(idx) + seq![x] + s.skip(idx));
    }
}

/// What placing an output record adds: exactly the one member.
proof fn lemma_place_output_contains(
    s: Seq<(ModuleIdV, Seq<char>, Seq<char>)>,
    x: (ModuleIdV, Seq<char>, Seq<char>),
)
    ensures
        spec_place_output(s, x).len() == s.len() + 1,
        forall|y: (ModuleIdV, Seq<char>, Seq<char>)|
            #[trigger] spec_place_output(s, x).contains(y) <==> s.contains(y) || y == x,
    decreases s.len(),
{
    let t = spec_place_output(s, x);
    if s.len() == 0 {
        assert forall|y: (ModuleIdV, Seq<char>, Seq<char>)| #[trigger] t.contains(y) implies s.contains(
            y,
        ) || y == x by {
            let q = choose|q: int| 0 <= q < t.len() && t[q] == y;
        }
        assert(t[0] == x);
    } else if module_id_lt(x.0, s.last().0) {
        lemma_place_output_contains(s.drop_last(), x);
        let prev = spec_place_output(s.drop_last(), x);
        assert forall|y: (ModuleIdV, Seq<char>, Seq<char>)| #[trigger] t.contains(y) implies s.contains(
            y,
        ) || y == x by {
            let q = choose|q: int| 0 <= q < t.len() && t[q] == y;
            if q < prev.len() {
                assert(prev.contains(y));
                if s.drop_last().contains(y) {
                    let p = choose|p: int| 0 <= p < s.drop_last().len() && s.drop_last()[p] == y;
                    assert(s[p] == y);
                }
            } else {
                assert(y == s.last());
                assert(s[s.len() - 1] == y);
            }
        }
        assert forall|y: (ModuleIdV, Seq<char>, Seq<char>)|
            s.contains(y) || y == x implies #[trigger] t.contains(y) by {
            if y == x {
                assert(prev.contains(x));
                let p = choose|p: int| 0 <= p < prev.len() && prev[p] == y;
                assert(t[p] == y);
            } else if s.contains(y) {
                let q = choose|q: int| 0 <= q < s.len() && s[q] == y;
                if q < s.len() - 1 {
                    assert(s.drop_last()[q] == y);
                    assert(prev.contains(y));
                    let p = choose|p: int| 0 <= p < prev.len() && prev[p] == y;
                    assert(t[p] == y);
                } else {
                    assert(t[t.len() - 1] == y);
                }
            }
        }
    } else {
        assert forall|y: (ModuleIdV, Seq<char>, Seq<char>)| #[trigger] t.contains(y) implies s.contains(
            y,
        ) || y == x by {
            let q = choose|q: int| 0 <= q < t.len() && t[q] == y;
            if q < s.len() {
                assert(s[q] == y);
            }
        }
        assert forall|y: (ModuleIdV, Seq<char>, Seq<char>)|
            s.contains(y) || y == x implies #[trigger] t.contains(y) by {
            if y == x {
                assert(t[t.len() - 1] == y);
            } else if s.contains(y) {
                let q = choose|q: int| 0 <= q < s.len() && s[q] == y;
                assert(t[q] == y);
            }
        }
    }
}

/// Placing keeps the module order of output records.
proof fn lemma_place_output_sorted(
    s: Seq<(ModuleIdV, Seq<char>, Seq<char>)>,
    x: (ModuleIdV, Seq<char>, Seq<char>),
)
    requires
        sorted_output(s),
    ensures
        sorted_output(spec_place_output(s, x)),
    decreases s.len(),
{
    let t = spec_place_output(s, x);
    if s.len() == 0 {
    } else if module_id_lt(x.0, s.last().0) {
        assert(sorted_output(s.drop_last()));
        lemma_place_output_sorted(s.drop_last(), x);
        lemma_place_output_contains(s.drop_last(), x);
        let prev = spec_place_output(s.drop_last(), x);
        assert forall|i: int, j: int| 0 <= i < j < t.len() implies !module_id_lt(
            (#[trigger] t[j]).0,
            (#[trigger] t[i]).0,
        ) by {
            if j == t.len() - 1 {
                assert(t[j] == s.last());
                assert(prev.contains(t[i]));
                if t[i] == x {
                    lemma_module_id_lt_asym(x.0, s.last().0);
                } else {
                    let q = choose|q: int| 0 <= q < s.drop_last().len() && s.drop_last()[q] == t[i];
                    assert(s[q] == t[i]);
                }
            }
        }
    } else {
        assert forall|i: int, j: int| 0 <= i < j < t.len() implies !module_id_lt(
            (#[trigger] t[j]).0,
            (#[trigger] t[i]).0,
        ) by {
            if j == t.len() - 1 {
                assert(t[j] == x && t[i] == s[i]);
                if module_id_lt(x.0, s[i].0) {
                    assert(!module_id_lt(s.last().0, s[i].0));
                    lemma_module_id_lt_le_trans(x.0, s[i].0, s.last().0);
                }
            }
        }
    }
}

/// Inserting into a duplicate-free sequence keeps it duplicate-free.
pub proof fn lemma_insert_no_dup_pub<T>(s: Seq<(ModuleIdV, T)>, x: (ModuleIdV, T))
    requires
        s.no_duplicates(),
    ensures
        spec_insert(s, x).no_duplicates(),
{
    lemma_insert_no_dup(s, x);
}

/// Inserting into a duplicate-free sequence keeps it duplicate-free.
proof fn lemma_insert_no_dup<T>(s: Seq<(ModuleIdV, T)>, x: (ModuleIdV, T))
    requires
        s.no_duplicates(),
    ensures
        spec_insert(s, x).no_duplicates(),
{
    if !s.contains(x) {
        lemma_place_no_dup(s, x);
    }
}

/// Inserting keeps the module order.
proof fn lemma_insert_sorted<T>(s: Seq<(ModuleIdV, T)>, x: (ModuleIdV, T))
    requires
        sorted_by_module(s),
    ensures
        sorted_by_module(spec_insert(s, x)),
{
    if !s.contains(x) {
        lemma_place_sorted(s, x);
    }
}

/// Merging map-fashion keeps a duplicate-free base duplicate-free.
proof fn lemma_merge_set_no_dup<T>(base: Seq<(ModuleIdV, T)>, extra: Seq<(ModuleIdV, T)>)
    requires
        base.no_duplicates(),
    ensures
        spec_merge_set(base, extra).no_duplicates(),
    decreases extra.len(),
{
    if extra.len() > 0 {
        lemma_merge_set_no_dup(base, extra.drop_last());
        lemma_insert_no_dup(spec_merge_set(base, extra.drop_last()), extra.last());
    }
}

/// Merging map-fashion keeps the module order.
proof fn lemma_merge_set_sorted<T>(base: Seq<(ModuleIdV, T)>, extra: Seq<(ModuleIdV, T)>)
    requires
        sorted_by_module(base),
    ensures
        sorted_by_module(spec_merge_set(base, extra)),
    decreases extra.len(),
{
    if extra.len() > 0 {
        lemma_merge_set_sorted(base, extra.drop_last());
        lemma_insert_sorted(spec_merge_set(base, extra.drop_last()), extra.last());
    }
}

/// What taking a key out of the output map leaves: records of other
/// keys only, all of them from the original, uniqueness kept.
proof fn lemma_output_without(
    s: Seq<(ModuleIdV, Seq<char>, Seq<char>)>,
    module_id: ModuleIdV,
    test_name: Seq<char>,
)
    ensures
        forall|k: int|
            0 <= k < spec_output_without(s, module_id, test_name).len() ==> !((#[trigger] spec_output_without(
                s,
                module_id,
                test_name,
            )[k]).0 == module_id && spec_output_without(s, module_id, test_name)[k].1
                == test_name),
        forall|k: int|
            0 <= k < spec_output_without(s, module_id, test_name).len() ==> s.contains(
                #[trigger] spec_output_without(s, module_id, test_name)[k],
            ),
        output_keys_unique(s) ==> output_keys_unique(spec_output_without(s, module_id, test_name)),
        sorted_output(s) ==> sorted_output(spec_output_without(s, module_id, test_name)),
    decreases s.len(),
{
    if s.len() > 0 {
        lemma_output_without(s.drop_last(), module_id, test_name);
        let whole = spec_output_without(s, module_id, test_name);
        let prev = spec_output_without(s.drop_last(), module_id, test_name);
        assert forall|k: int| 0 <= k < whole.len() implies s.contains(#[trigger] whole[k]) by {
            if !(s.last().0 == module_id && s.last().1 == test_name) && k == whole.len() - 1 {
                assert(whole[k] == s.last());
                assert(s[s.len() - 1] == s.last());
            } else {
                assert(whole[k] == prev[k]);
                assert(s.drop_last().contains(prev[k]));
                let j = choose|j: int| 0 <= j < s.drop_last().len() && s.drop_last()[j] == prev[k];
                assert(s[j] == prev[k]);
            }
        }
        if output_keys_unique(s) {
            assert(output_keys_unique(s.drop_last()));
            assert forall|i: int, j: int| 0 <= i < j < whole.len() implies !((#[trigger] whole[i]).0
                == (#[trigger] whole[j]).0 && whole[i].1 == whole[j].1) by {
                if !(s.last().0 == module_id && s.last().1 == test_name) && j == whole.len() - 1 {
                    assert(whole[j] == s.last());
                    assert(whole[i] == prev[i]);
                    assert(s.drop_last().contains(prev[i]));
                    let q = choose|q: int|
                        0 <= q < s.drop_last().len() && s.drop_last()[q] == prev[i];
                    assert(s[q] == whole[i] && s[s.len() - 1] == whole[j]);
                }
            }
        }
        if sorted_output(s) {
            assert(sorted_output(s.drop_last()));
            assert forall|i: int, j: int| 0 <= i < j < whole.len() implies !module_id_lt(
                (#[trigger] whole[j]).0,
                (#[trigger] whole[i]).0,
            ) by {
                if !(s.last().0 == module_id && s.last().1 == test_name) && j == whole.len() - 1 {
                    assert(whole[j] == s.last());
                    assert(whole[i] == prev[i]);
                    assert(s.drop_last().contains(prev[i]));
                    let q = choose|q: int|
                        0 <= q < s.drop_last().len() && s.drop_last()[q] == prev[i];
                    assert(s[q] == whole[i] && s[s.len() - 1] == whole[j]);
                }
            }
        }
    }
}

/// Writing one record into a keys-unique output map keeps it
/// keys-unique.
proof fn lemma_put_output_unique(
    s: Seq<(ModuleIdV, Seq<char>, Seq<char>)>,
    record: (ModuleIdV, Seq<char>, Seq<char>),
)
    requires
        output_keys_unique(s),
    ensures
        output_keys_unique(spec_put_output(s, record)),
{
    lemma_output_without(s, record.0, record.1);
    let without = spec_output_without(s, record.0, record.1);
    assert(without.no_duplicates()) by {
        assert forall|i: int, j: int| 0 <= i < j < without.len() implies without[i]
            != without[j] by {
            if without[i] == without[j] {
                assert(without[i].0 == without[j].0 && without[i].1 == without[j].1);
            }
        }
    }
    assert(!without.contains(record)) by {
        if without.contains(record) {
            let q = choose|q: int| 0 <= q < without.len() && without[q] == record;
        }
    }
    lemma_place_output_no_dup(without, record);
    lemma_place_output_contains(without, record);
    let whole = spec_place_output(without, record);
    assert forall|i: int, j: int| 0 <= i < j < whole.len() implies !((#[trigger] whole[i]).0
        == (#[trigger] whole[j]).0 && whole[i].1 == whole[j].1) by {
        if whole[i].0 == whole[j].0 && whole[i].1 == whole[j].1 {
            assert(whole[i] != whole[j]);
            assert(whole.contains(whole[i]) && whole.contains(whole[j]));
            if whole[i] == record {
                assert(without.contains(whole[j]));
                let q = choose|q: int| 0 <= q < without.len() && without[q] == whole[j];
            } else if whole[j] == record {
                assert(without.contains(whole[i]));
                let q = choose|q: int| 0 <= q < without.len() && without[q] == whole[i];
            } else {
                assert(without.contains(whole[i]) && without.contains(whole[j]));
                let q1 = choose|q1: int| 0 <= q1 < without.len() && without[q1] == whole[i];
                let q2 = choose|q2: int| 0 <= q2 < without.len() && without[q2] == whole[j];
                assert(q1 != q2);
                if q1 < q2 {
                    assert(!(without[q1].0 == without[q2].0 && without[q1].1 == without[q2].1));
                } else {
                    assert(!(without[q2].0 == without[q1].0 && without[q2].1 == without[q1].1));
                }
            }
        }
    }
}

/// Placing an absent output record keeps records distinct.
proof fn lemma_place_output_no_dup(
    s: Seq<(ModuleIdV, Seq<char>, Seq<char>)>,
    x: (ModuleIdV, Seq<char>, Seq<char>),
)
    requires
        s.no_duplicates(),
        !s.contains(x),
    ensures
        spec_place_output(s, x).no_duplicates(),
    decreases s.len(),
{
    let t = spec_place_output(s, x);
    if s.len() == 0 {
    } else if module_id_lt(x.0, s.last().0) {
        assert(s.drop_last().no_duplicates());
        assert(!s.drop_last().contains(x)) by {
            if s.drop_last().contains(x) {
                let q = choose|q: int| 0 <= q < s.drop_last().len() && s.drop_last()[q] == x;
                assert(s[q] == x);
            }
        }
        lemma_place_output_no_dup(s.drop_last(), x);
        lemma_place_output_contains(s.drop_last(), x);
        let prev = spec_place_output(s.drop_last(), x);
        assert forall|i: int, j: int| 0 <= i < j < t.len() implies t[i] != t[j] by {
            if j == t.len() - 1 {
                assert(t[j] == s.last());
                assert(prev.contains(t[i]));
                if t[i] == s.last() {
                    if s.drop_last().contains(s.last()) {
                        let q = choose|q: int|
                            0 <= q < s.drop_last().len() && s.drop_last()[q] == s.last();
                        assert(s[q] == s[s.len() - 1]);
                    } else {
                        assert(t[i] == x);
                        lemma_module_id_lt_irrefl(x.0);
                    }
                }
            }
        }
    } else {
        assert forall|i: int, j: int| 0 <= i < j < t.len() implies t[i] != t[j] by {
            if j == t.len() - 1 {
                assert(t[i] == s[i]);
                assert(s.contains(s[i]));
            }
        }
    }
}

/// Writing one record into an ordered output map keeps the order.
proof fn lemma_put_output_sorted(
    s: Seq<(ModuleIdV, Seq<char>, Seq<char>)>,
    record: (ModuleIdV, Seq<char>, Seq<char>),
)
    requires
        sorted_output(s),
    ensures
        sorted_output(spec_put_output(s, record)),
{
    lemma_output_without(s, record.0, record.1);
    lemma_place_output_sorted(spec_output_without(s, record.0, record.1), record);
}

/// Merging outputs map-fashion keeps an ordered base ordered.
proof fn lemma_merge_outputs_sorted(
    base: Seq<(ModuleIdV, Seq<char>, Seq<char>)>,
    extra: Seq<(ModuleIdV, Seq<char>, Seq<char>)>,
)
    requires
        sorted_output(base),
    ensures
        sorted_output(spec_merge_outputs(base, extra)),
    decreases extra.len(),
{
    if extra.len() > 0 {
        lemma_merge_outputs_sorted(base, extra.drop_last());
        lemma_put_output_sorted(spec_merge_outputs(base, extra.drop_last()), extra.last());
    }
}

/// Merging outputs map-fashion keeps a keys-unique base keys-unique.
proof fn lemma_merge_outputs_unique(
    base: Seq<(ModuleIdV, Seq<char>, Seq<char>)>,
    extra: Seq<(ModuleIdV, Seq<char>, Seq<char>)>,
)
    requires
        output_keys_unique(base),
    ensures
        output_keys_unique(spec_merge_outputs(base, extra)),
    decreases extra.len(),
{
    if extra.len() > 0 {
        lemma_merge_outputs_unique(base, extra.drop_last());
        lemma_put_output_unique(spec_merge_outputs(base, extra.drop_last()), extra.last());
    }
}

impl TestStatistics {
    pub fn new() -> (r: TestStatistics)
        ensures
            r@.is_empty(),
            r@.wf(),
            r@.passed == Seq::<(ModuleIdV, TestRunInfoV)>::empty(),
            r@.failed == Seq::<(ModuleIdV, TestFailureV)>::empty(),
            r@.output == Seq::<(ModuleIdV, Seq<char>, Seq<char>)>::empty(),
    {
        let r = TestStatistics { passed: Vec::new(), failed: Vec::new(), output: Vec::new() };
        assert(r@.passed =~= Seq::<(ModuleIdV, TestRunInfoV)>::empty());
        assert(r@.failed =~= Seq::<(ModuleIdV, TestFailureV)>::empty());
        assert(r@.output =~= Seq::<(ModuleIdV, Seq<char>, Seq<char>)>::empty());
        r
    }

    /// Record a failed test under the module of the given plan.  An
    /// identical record is already there is not recorded again.
    pub fn test_failure(&mut self, test_failure: TestFailure, test_plan: &ModuleTestPlan)
        ensures
            final(self)@.passed == old(self)@.passed,
            final(self)@.output == old(self)@.output,
            final(self)@.failed == spec_insert(
                old(self)@.failed,
                (test_plan.module_id@, test_failure@),
            ),
            old(self)@.wf() ==> final(self)@.wf(),
    {
        let module_id = test_plan.module_id.duplicate();
        insert_failed(&mut self.failed, module_id, test_failure);
        proof {
            if old(self)@.wf() {
                lemma_insert_no_dup(old(self)@.failed, (test_plan.module_id@, test_failure@));
                lemma_insert_sorted(old(self)@.failed, (test_plan.module_id@, test_failure@));
            }
        }
    }

    /// Record a passed test under the module of the given plan.  An
    /// identical record already there is not recorded again.
    pub fn test_success(&mut self, test_info: TestRunInfo, test_plan: &ModuleTestPlan)
        ensures
            final(self)@.failed == old(self)@.failed,
            final(self)@.output == old(self)@.output,
            final(self)@.passed == spec_insert(
                old(self)@.passed,
                (test_plan.module_id@, test_info@),
            ),
            old(self)@.wf() ==> final(self)@.wf(),
    {
        let module_id = test_plan.module_id.duplicate();
        insert_passed(&mut self.passed, module_id, test_info);
        proof {
            if old(self)@.wf() {
                lemma_insert_no_dup(old(self)@.passed, (test_plan.module_id@, test_info@));
                lemma_insert_sorted(old(self)@.passed, (test_plan.module_id@, test_info@));
            }
        }
    }

    /// Record a test's textual output under the module of the given
    /// plan, overwriting any output recorded earlier under the same
    /// (module, test name) key.
    pub fn test_output(&mut self, test_name: String, test_plan: &ModuleTestPlan, output: String)
        ensures
            final(self)@.passed == old(self)@.passed,
            final(self)@.failed == old(self)@.failed,
            final(self)@.output == spec_put_output(
                old(self)@.output,
                (test_plan.module_id@, test_name@, output@),
            ),
            old(self)@.wf() ==> final(self)@.wf(),
    {
        let module_id = test_plan.module_id.duplicate();
        proof {
            if old(self)@.wf() {
                lemma_put_output_unique(
                    old(self)@.output,
                    (test_plan.module_id@, test_name@, output@),
                );
                lemma_put_output_sorted(
                    old(self)@.output,
                    (test_plan.module_id@, test_name@, output@),
                );
            }
        }
        put_output(&mut self.output, module_id, test_name, output);
    }

    /// Merge another statistics into this one: passed and failed
    /// records united set-fashion, outputs united map-fashion with
    /// the other side's value winning on a shared key.
    pub fn combine(self, other: Self) -> (r: Self)
        ensures
            r@ == self@.merge(other@),
            self@.wf() ==> r@.wf(),
    {
        let ghost a = self@;
        let ghost b = other@;
        let mut merged = self;
        let TestStatistics { passed: p2, failed: f2, output: o2 } = other;
        let mut p2 = p2;
        let mut f2 = f2;
        let mut o2 = o2;
        let pn = p2.len();
        let mut i: usize = 0;
        proof {
            assert(b.passed.take(0) =~= Seq::<(ModuleIdV, TestRunInfoV)>::empty());
            assert(passed_view(merged.passed@) =~= spec_merge_set(a.passed, b.passed.take(0)));
        }
        while i < pn
            invariant
                pn == p2@.len(),
                passed_view(p2@) == b.passed,
                b.passed.len() == pn,
                i <= pn,
                passed_view(merged.passed@) == spec_merge_set(a.passed, b.passed.take(i as int)),
                failed_view(merged.failed@) == a.failed,
                output_view(merged.output@) == a.output,
            decreases pn - i,
        {
            let entry = &p2[i];
            proof {
                assert(b.passed[i as int] == (entry.0@, entry.1@));
                assert(b.passed.take(i + 1).drop_last() =~= b.passed.take(i as int));
                assert(b.passed.take(i + 1).last() == b.passed[i as int]);
            }
            insert_passed(&mut merged.passed, entry.0.duplicate(), entry.1.duplicate());
            i += 1;
        }
        proof {
            assert(b.passed.take(pn as int) =~= b.passed);
        }
        let fn_ = f2.len();
        let mut k: usize = 0;
        proof {
            assert(failed_view(merged.failed@) =~= spec_merge_set(a.failed, b.failed.take(0)));
        }
        while k < fn_
            invariant
                b.failed.len() == fn_,
                k <= fn_,
                f2@.len() == fn_ - k,
                forall|j: int|
                    0 <= j < f2@.len() ==> #[trigger] failed_view(f2@)[j] == b.failed[k + j],
                passed_view(merged.passed@) == spec_merge_set(a.passed, b.passed),
                failed_view(merged.failed@) == spec_merge_set(a.failed, b.failed.take(k as int)),
                output_view(merged.output@) == a.output,
            decreases fn_ - k,
        {
            let ghost prev = f2@;
            let entry = f2.remove(0);
            proof {
                assert(failed_view(prev)[0] == (prev[0].0@, prev[0].1@));
                assert((entry.0@, entry.1@) == b.failed[k as int]);
                assert forall|j: int| 0 <= j < f2@.len() implies #[trigger] failed_view(f2@)[j]
                    == b.failed[k + 1 + j] by {
                    assert(failed_view(f2@)[j] == (f2@[j].0@, f2@[j].1@));
                    assert(f2@[j] == prev[j + 1]);
                    assert(failed_view(prev)[j + 1] == (prev[j + 1].0@, prev[j + 1].1@));
                }
                assert(b.failed.take(k + 1).drop_last() =~= b.failed.take(k as int));
                assert(b.failed.take(k + 1).last() == b.failed[k as int]);
            }
            let (mid, failure) = entry;
            insert_failed(&mut merged.failed, mid, failure);
            k += 1;
        }
        proof {
            assert(b.failed.take(fn_ as int) =~= b.failed);
        }
        let on = o2.len();
        let mut t: usize = 0;
        proof {
            assert(output_view(merged.output@) =~= spec_merge_outputs(a.output, b.output.take(0)));
        }
        while t < on
            invariant
                b.output.len() == on,
                t <= on,
                o2@.len() == on - t,
                forall|j: int|
                    0 <= j < o2@.len() ==> #[trigger] output_view(o2@)[j] == b.output[t + j],
                passed_view(merged.passed@) == spec_merge_set(a.passed, b.passed),
                failed_view(merged.failed@) == spec_merge_set(a.failed, b.failed),
                output_view(merged.output@) == spec_merge_outputs(a.output, b.output.take(t as int)),
            decreases on - t,
        {
            let ghost prev = o2@;
            let entry = o2.remove(0);
            proof {
                assert(output_view(prev)[0] == (prev[0].0@, prev[0].1@, prev[0].2@));
                assert((entry.0@, entry.1@, entry.2@) == b.output[t as int]);
                assert forall|j: int| 0 <= j < o2@.len() implies #[trigger] output_view(o2@)[j]
                    == b.output[t + 1 + j] by {
                    assert(output_view(o2@)[j] == (o2@[j].0@, o2@[j].1@, o2@[j].2@));
                    assert(o2@[j] == prev[j + 1]);
                    assert(output_view(prev)[j + 1] == (prev[j + 1].0@, prev[j + 1].1@, prev[j
                        + 1].2@));
                }
                assert(b.output.take(t + 1).drop_last() =~= b.output.take(t as int));
                assert(b.output.take(t + 1).last() == b.output[t as int]);
            }
            let (mid, name, out) = entry;
            put_output(&mut merged.output, mid, name, out);
            t += 1;
        }
        proof {
            assert(b.output.take(on as int) =~= b.output);
            assert(merged@ =~= a.merge(b));
            if a.wf() {
                lemma_merge_set_no_dup(a.passed, b.passed);
                lemma_merge_set_no_dup(a.failed, b.failed);
                lemma_merge_outputs_unique(a.output, b.output);
                lemma_merge_set_sorted(a.passed, b.passed);
                lemma_merge_set_sorted(a.failed, b.failed);
                lemma_merge_outputs_sorted(a.output, b.output);
            }
        }
        merged
    }
}

/// The rendered items of a byte list, separated by commas.
pub open spec fn spec_byte_items(b: Seq<u8>) -> Seq<char>
    decreases b.len(),
{
    if b.len() == 0 {
        Seq::empty()
    } else if b.len() == 1 {
        spec_decimal(b[0] as int)
    } else {
        spec_byte_items(b.drop_last()) + ", "@ + spec_decimal(b.last() as int)
    }
}

/// A byte list rendered in brackets.
pub open spec fn spec_byte_list(b: Seq<u8>) -> Seq<char> {
    "["@ + spec_byte_items(b) + "]"@
}

pub fn render_byte_list(v: &Vec<u8>) -> (r: String)
    ensures
        r@ == spec_byte_list(v@),
{
    let mut s = String::from_str("[");
    let n = v.len();
    let mut i: usize = 0;
    while i < n
        invariant
            n == v@.len(),
            i <= n,
            s@ == "["@ + spec_byte_items(v@.take(i as int)),
        decreases n - i,
    {
        if i > 0 {
            s.append(", ");
        }
        s.append(decimal(v[i] as u64).as_str());
        proof {
            assert(v@.take(i + 1).drop_last() =~= v@.take(i as int));
            assert(v@.take(i + 1).last() == v@[i as int]);
            assert(s@ =~= "["@ + spec_byte_items(v@.take(i + 1)));
        }
        i += 1;
    }
    s.append("]");
    proof {
        assert(v@.take(n as int) =~= v@);
        assert(s@ =~= spec_byte_list(v@));
    }
    s
}

/// The rendered items of a list of byte lists.
pub open spec fn spec_value_items(vs: Seq<Seq<u8>>) -> Seq<char>
    decreases vs.len(),
{
    if vs.len() == 0 {
        Seq::empty()
    } else if vs.len() == 1 {
        spec_byte_list(vs[0])
    } else {
        spec_value_items(vs.drop_last()) + ", "@ + spec_byte_list(vs.last())
    }
}

/// A list of serialized return values rendered in brackets.
pub open spec fn spec_value_list(vs: Seq<Seq<u8>>) -> Seq<char> {
    "["@ + spec_value_items(vs) + "]"@
}

pub fn render_value_list(v: &Vec<Vec<u8>>) -> (r: String)
    ensures
        r@ == spec_value_list(v.deep_view()),
{
    let mut s = String::from_str("[");
    let n = v.len();
    let mut i: usize = 0;
    while i < n
        invariant
            n == v@.len(),
            v.deep_view().len() == n,
            i <= n,
            s@ == "["@ + spec_value_items(v.deep_view().take(i as int)),
        decreases n - i,
    {
        if i > 0 {
            s.append(", ");
        }
        proof {
            assert(v.deep_view()[i as int] =~= v@[i as int]@);
        }
        s.append(render_byte_list(&v[i]).as_str());
        proof {
            assert(v.deep_view().take(i + 1).drop_last() =~= v.deep_view().take(i as int));
            assert(v.deep_view().take(i + 1).last() == v.deep_view()[i as int]);
            assert(s@ =~= "["@ + spec_value_items(v.deep_view().take(i + 1)));
        }
        i += 1;
    }
    s.append("]");
    proof {
        assert(v.deep_view().take(n as int) =~= v.deep_view());
        assert(s@ =~= spec_value_list(v.deep_view()));
    }
    s
}

/// One backend result rendered for the mismatch report.
pub open spec fn spec_render_result(r: VmResultV) -> Seq<char> {
    match r {
        Result::Ok(vs) => "Ok("@ + spec_value_list(vs) + ")"@,
        Result::Err(e) => "Err("@ + spec_verbiage(e, true) + ")"@,
    }
}

pub fn render_vm_result(r: &VmResult) -> (s: String)
    ensures
        s@ == spec_render_result(vm_result_view(*r)),
{
    let mut s: String;
    match r {
        Result::Ok(vs) => {
            s = String::from_str("Ok(");
            s.append(render_value_list(vs).as_str());
            s.append(")");
        },
        Result::Err(e) => {
            s = String::from_str("Err(");
            s.append(e.verbiage(true).as_str());
            s.append(")");
        },
    }
    assert(s@ =~= spec_render_result(vm_result_view(*r)));
    s
}

/// The warning line put before an unexpected error of an internal
/// kind; an ordinary execution error gets none.
pub open spec fn spec_status_prefix(t: StatusType) -> Seq<char> {
    match t {
        StatusType::Validation => "INTERNAL TEST ERROR: Unexpected Validation Error"@,
        StatusType::Verification => "INTERNAL TEST ERROR: Unexpected Verification Error"@,
        StatusType::InvariantViolation => "INTERNAL TEST ERROR: INTERNAL VM INVARIANT VIOLATION."@,
        StatusType::Deserialization => "INTERNAL TEST ERROR: Unexpected Deserialization Error"@,
        StatusType::Unknown => "INTERNAL TEST ERROR: UNKNOWN ERROR."@,
        StatusType::Execution => Seq::empty(),
    }
}

fn status_prefix(t: StatusType) -> (r: &'static str)
    ensures
        r@ == spec_status_prefix(t),
{
    let r: &'static str = match t {
        StatusType::Validation => "INTERNAL TEST ERROR: Unexpected Validation Error",
        StatusType::Verification => "INTERNAL TEST ERROR: Unexpected Verification Error",
        StatusType::InvariantViolation => "INTERNAL TEST ERROR: INTERNAL VM INVARIANT VIOLATION.",
        StatusType::Deserialization => "INTERNAL TEST ERROR: Unexpected Deserialization Error",
        StatusType::Unknown => "INTERNAL TEST ERROR: UNKNOWN ERROR.",
        StatusType::Execution => "",
    };
    proof {
        if t is Execution {
            reveal_strlit("");
            assert(r@ =~= spec_status_prefix(t));
        }
    }
    r
}

/// The lines of a failure's rendered reason.
pub open spec fn spec_render_error_lines(f: TestFailureV) -> Seq<Seq<char>> {
    match f.failure_reason {
        FailureReasonV::NoError(m) => seq![m],
        FailureReasonV::Timeout(m) => seq![m],
        FailureReasonV::WrongError(m, expected, actual) => seq![
            m + ". Expected test "@ + spec_verbiage(expected, false) + " but instead it "@
                + spec_verbiage(actual, true) + " rooted here"@,
        ],
        FailureReasonV::WrongAbortDeprecated(m, code, actual) => seq![
            m + ". Expected test to abort with code "@ + spec_decimal(code as int)
                + ", but instead it "@ + spec_verbiage(actual, true) + " rooted here"@,
        ],
        FailureReasonV::UnexpectedError(m, e) => {
            let prefix = spec_status_prefix(spec_status_type(e.major_status));
            let line = m + ", but it "@ + spec_verbiage(e, true) + " rooted here"@;
            if prefix.len() == 0 {
                seq![line]
            } else {
                seq![prefix, line]
            }
        },
        FailureReasonV::Mismatch { primary_return_values, reference_return_values } => seq![
            "Executions via Move VM [M] and stackless VM [S] yield different results."@,
            "[M] - return values: "@ + spec_render_result(primary_return_values),
            "[S] - return values: "@ + spec_render_result(reference_return_values),
            Seq::<char>::empty(),
        ],
        FailureReasonV::Property(m) => seq![m],
    }
}

/// Lines joined by a separator.
pub open spec fn spec_joined(lines: Seq<Seq<char>>, sep: Seq<char>) -> Seq<char>
    decreases lines.len(),
{
    if lines.len() == 0 {
        Seq::empty()
    } else if lines.len() == 1 {
        lines[0]
    } else {
        spec_joined(lines.drop_last(), sep) + sep + lines.last()
    }
}

pub fn join_lines(lines: &Vec<String>, sep: &str) -> (r: String)
    ensures
        r@ == spec_joined(lines.deep_view(), sep@),
{
    let mut s = String::new();
    let n = lines.len();
    let mut i: usize = 0;
    while i < n
        invariant
            n == lines@.len(),
            lines.deep_view().len() == n,
            i <= n,
            s@ == spec_joined(lines.deep_view().take(i as int), sep@),
        decreases n - i,
    {
        if i > 0 {
            s.append(sep);
        }
        proof {
            assert(lines.deep_view()[i as int] == lines@[i as int]@);
        }
        s.append(lines[i].as_str());
        proof {
            assert(lines.deep_view().take(i + 1).drop_last() =~= lines.deep_view().take(i as int));
            assert(lines.deep_view().take(i + 1).last() == lines.deep_view()[i as int]);
            assert(s@ =~= spec_joined(lines.deep_view().take(i + 1), sep@));
        }
        i += 1;
    }
    proof {
        assert(lines.deep_view().take(n as int) =~= lines.deep_view());
    }
    s
}

/// Append one line of text to a sink of lines.
pub fn push_line(lines: &mut Vec<String>, line: String)
    ensures
        final(lines).deep_view() == old(lines).deep_view().push(line@),
{
    let ghost prev_vec = *lines;
    lines.push(line);
    proof {
        assert forall|j: int| 0 <= j < lines.deep_view().len() implies #[trigger] lines.deep_view()[j]
            == prev_vec.deep_view().push(line@)[j] by {
            assert(lines@ == prev_vec@.push(line));
            assert(lines.deep_view()[j] == lines@[j]@);
            if j < prev_vec@.len() {
                assert(lines@[j] == prev_vec@[j]);
                assert(prev_vec.deep_view()[j] == prev_vec@[j]@);
            } else {
                assert(lines@[j] == line);
            }
        }
        assert(lines.deep_view() =~= prev_vec.deep_view().push(line@));
    }
}

impl TestFailure {
    /// The rendered failure reason, line by line.
    pub fn render_error_lines(&self) -> (r: Vec<String>)
        ensures
            r.deep_view() == spec_render_error_lines(self@),
    {
        let mut out: Vec<String> = Vec::new();
        match &self.failure_reason {
            FailureReason::NoError(m) => {
                push_line(&mut out, m.clone());
                proof {
                    assert(out.deep_view() =~= spec_render_error_lines(self@));
                }
            },
            FailureReason::Timeout(m) => {
                push_line(&mut out, m.clone());
                proof {
                    assert(out.deep_view() =~= spec_render_error_lines(self@));
                }
            },
            FailureReason::WrongError(m, expected, actual) => {
                let mut s = m.clone();
                s.append(". Expected test ");
                s.append(expected.verbiage(false).as_str());
                s.append(" but instead it ");
                s.append(actual.verbiage(true).as_str());
                s.append(" rooted here");
                assert(s@ =~= spec_render_error_lines(self@)[0]);
                push_line(&mut out, s);
                proof {
                    assert(out.deep_view() =~= spec_render_error_lines(self@));
                }
            },
            FailureReason::WrongAbortDeprecated(m, code, actual) => {
                let mut s = m.clone();
                s.append(". Expected test to abort with code ");
                s.append(decimal(*code).as_str());
                s.append(", but instead it ");
                s.append(actual.verbiage(true).as_str());
                s.append(" rooted here");
                assert(s@ =~= spec_render_error_lines(self@)[0]);
                push_line(&mut out, s);
                proof {
                    assert(out.deep_view() =~= spec_render_error_lines(self@));
                }
            },
            FailureReason::UnexpectedError(m, e) => {
                let prefix = status_prefix(status_type(e.major_status));
                if !prefix.is_empty() {
                    push_line(&mut out, String::from_str(prefix));
                }
                let mut s = m.clone();
                s.append(", but it ");
                s.append(e.verbiage(true).as_str());
                s.append(" rooted here");
                proof {
                    let lines = spec_render_error_lines(self@);
                    assert(s@ =~= lines.last());
                }
                push_line(&mut out, s);
                proof {
                    assert(out.deep_view() =~= spec_render_error_lines(self@));
                }
            },
            FailureReason::Mismatch { primary_return_values, reference_return_values } => {
                push_line(
                    &mut out,
                    String::from_str(
                        "Executions via Move VM [M] and stackless VM [S] yield different results.",
                    ),
                );
                let mut m = String::from_str("[M] - return values: ");
                m.append(render_vm_result(primary_return_values).as_str());
                assert(m@ =~= spec_render_error_lines(self@)[1]);
                push_line(&mut out, m);
                let mut r = String::from_str("[S] - return values: ");
                r.append(render_vm_result(reference_return_values).as_str());
                assert(r@ =~= spec_render_error_lines(self@)[2]);
                push_line(&mut out, r);
                push_line(&mut out, String::new());
                proof {
                    assert(out.deep_view() =~= spec_render_error_lines(self@));
                }
            },
            FailureReason::Property(m) => {
                push_line(&mut out, m.clone());
                proof {
                    assert(out.deep_view() =~= spec_render_error_lines(self@));
                }
            },
        }
        out
    }

    /// The rendered failure reason as one piece of text.
    pub fn render_error(&self) -> (r: String)
        ensures
            r@ == spec_joined(spec_render_error_lines(self@), "\n"@),
    {
        let lines = self.render_error_lines();
        join_lines(&lines, "\n")
    }
}


/// One failed test's framed block in the failure report.
pub open spec fn spec_fail_block(f: TestFailureV, colorize: bool) -> Seq<char> {
    "\n\u{250c}\u{2500}\u{2500} "@ + spec_colored("\u{1b}[1m"@, f.test_run_info.function_ident, colorize)
        + " \u{2500}\u{2500}\u{2500}\u{2500}\u{2500}\u{2500}\n"@ + "\u{2502} "@ + spec_joined(
        spec_render_error_lines(f),
        "\n\u{2502} "@,
    ) + "\n\u{2514}\u{2500}\u{2500}\u{2500}\u{2500}\u{2500}\u{2500}\u{2500}\u{2500}\u{2500}\u{2500}\u{2500}\u{2500}\u{2500}\u{2500}\u{2500}\u{2500}\u{2500}\u{2500}\n\n"@
}

/// The failure sections: the failed records in order, each framed,
/// with a heading wherever a new module's failures start.
/// The distinct failing modules, in order of first appearance among
/// the failed records.
pub open spec fn spec_failed_modules(failed: Seq<(ModuleIdV, TestFailureV)>) -> Seq<ModuleIdV>
    decreases failed.len(),
{
    if failed.len() == 0 {
        Seq::empty()
    } else {
        let prev = spec_failed_modules(failed.drop_last());
        if prev.contains(failed.last().0) {
            prev
        } else {
            prev.push(failed.last().0)
        }
    }
}

/// One module's failures, in record order.
pub open spec fn spec_module_failures(
    failed: Seq<(ModuleIdV, TestFailureV)>,
    module_id: ModuleIdV,
) -> Seq<TestFailureV>
    decreases failed.len(),
{
    if failed.len() == 0 {
        Seq::empty()
    } else {
        let prev = spec_module_failures(failed.drop_last(), module_id);
        if failed.last().0 == module_id {
            prev.push(failed.last().1)
        } else {
            prev
        }
    }
}

/// The framed blocks of a run of failures, in order.
pub open spec fn spec_fail_blocks(failures: Seq<TestFailureV>, colorize: bool) -> Seq<char>
    decreases failures.len(),
{
    if failures.len() == 0 {
        Seq::empty()
    } else {
        spec_fail_blocks(failures.drop_last(), colorize) + spec_fail_block(
            failures.last(),
            colorize,
        )
    }
}

/// The failure sections for the given modules: per module a heading,
/// then all that module's failures, framed, in record order.
pub open spec fn spec_sections_for(
    modules: Seq<ModuleIdV>,
    failed: Seq<(ModuleIdV, TestFailureV)>,
    colorize: bool,
) -> Seq<char>
    decreases modules.len(),
{
    if modules.len() == 0 {
        Seq::empty()
    } else {
        spec_sections_for(modules.drop_last(), failed, colorize) + "Failures in "@
            + modules.last().name + ":\n"@ + spec_fail_blocks(
            spec_module_failures(failed, modules.last()),
            colorize,
        )
    }
}

/// The failure report's sections: every failing module once, in
/// order of first appearance, its failures grouped under its
/// heading.
pub open spec fn spec_fail_sections(
    failed: Seq<(ModuleIdV, TestFailureV)>,
    colorize: bool,
) -> Seq<char> {
    spec_sections_for(spec_failed_modules(failed), failed, colorize)
}

/// The closing summary line.
pub open spec fn spec_summary_line(stats: TestStatisticsV, colorize: bool) -> Seq<char> {
    "Test result: "@ + (if stats.failed.len() == 0 {
        spec_colored(green_code(), "OK"@, colorize)
    } else {
        spec_colored(red_code(), "FAILED"@, colorize)
    }) + ". Total tests: "@ + spec_decimal((stats.passed.len() + stats.failed.len()) as int) + "; passed: "@
        + spec_decimal(stats.passed.len() as int) + "; failed: "@ + spec_decimal(
        stats.failed.len() as int,
    ) + "\n"@
}

/// Everything `summarize` writes: the failure sections when any test
/// failed, then the summary line.
pub open spec fn spec_summarize_text(stats: TestStatisticsV, colorize: bool) -> Seq<char> {
    (if stats.failed.len() > 0 {
        "\nTest failures:\n\n"@ + spec_fail_sections(stats.failed, colorize)
    } else {
        Seq::empty()
    }) + spec_summary_line(stats, colorize)
}

/// A module-qualified test name.
pub open spec fn spec_qualified(module_name: Seq<char>, ident: Seq<char>) -> Seq<char> {
    module_name + "::"@ + ident
}

pub fn qualified_name(module_id: &ModuleId, ident: &str) -> (r: String)
    ensures
        r@ == spec_qualified(module_id@.name, ident@),
{
    let mut s = String::new();
    s.append(module_id.name.as_str());
    s.append("::");
    s.append(ident);
    assert(s@ =~= spec_qualified(module_id@.name, ident@));
    s
}

/// One row of the comma-separated statistics report.
pub open spec fn spec_csv_row(m: ModuleIdV, info: TestRunInfoV) -> Seq<char> {
    spec_qualified(m.name, info.function_ident) + ","@ + spec_decimal(info.elapsed_nanos as int)
        + ","@ + spec_decimal(info.instructions_executed as int) + "\n"@
}

pub open spec fn spec_csv_rows(passed: Seq<(ModuleIdV, TestRunInfoV)>) -> Seq<char>
    decreases passed.len(),
{
    if passed.len() == 0 {
        Seq::empty()
    } else {
        spec_csv_rows(passed.drop_last()) + spec_csv_row(passed.last().0, passed.last().1)
    }
}

/// The whole comma-separated statistics report: a header, then one
/// row per passed test.  Failed tests are left out.
pub open spec fn spec_csv(stats: TestStatisticsV) -> Seq<char> {
    "name,nanos,gas\n"@ + spec_csv_rows(stats.passed)
}

/// One statistics-table row before layout: the qualified name, the
/// elapsed seconds, and the gas consumed.
pub open spec fn spec_row_of(m: ModuleIdV, info: TestRunInfoV) -> (Seq<char>, Seq<char>, Seq<char>) {
    (
        spec_qualified(m.name, info.function_ident),
        spec_seconds(info.elapsed_nanos as int),
        spec_decimal(info.instructions_executed as int),
    )
}

/// The rows of the statistics table: every passed test, then every
/// failed one.
pub open spec fn spec_stat_rows(stats: TestStatisticsV) -> Seq<(Seq<char>, Seq<char>, Seq<char>)> {
    stats.passed.map_values(|p: (ModuleIdV, TestRunInfoV)| spec_row_of(p.0, p.1))
        + stats.failed.map_values(|p: (ModuleIdV, TestFailureV)| spec_row_of(p.0, p.1.test_run_info))
}

pub open spec fn spec_imax(a: int, b: int) -> int {
    if a >= b {
        a
    } else {
        b
    }
}

/// The width of the name column: the widest name among the rows.
pub open spec fn spec_name_width(rows: Seq<(Seq<char>, Seq<char>, Seq<char>)>) -> int
    decreases rows.len(),
{
    if rows.len() == 0 {
        0
    } else {
        spec_imax(spec_name_width(rows.drop_last()), blen(rows.last().0))
    }
}

/// A full-width frame line of the table.
pub open spec fn spec_frame_line(
    width: int,
    lsym: Seq<char>,
    jsym: Seq<char>,
    rsym: Seq<char>,
) -> Seq<char> {
    lsym + spec_repeat('\u{2500}', width) + jsym + spec_repeat('\u{2500}', 10) + jsym + spec_repeat(
        '\u{2500}',
        25,
    ) + rsym
}

/// The table's column-header line.
pub open spec fn spec_header_line(width: int) -> Seq<char> {
    "\u{2502} "@ + spec_center("Test Name"@, blen("Test Name"@), width) + " \u{2502} "@
        + spec_center("Time"@, blen("Time"@), 10) + " \u{2502} "@ + spec_center(
        "Gas Used"@,
        blen("Gas Used"@),
        25,
    ) + " \u{2502}\n"@
}

/// One laid-out table row.
pub open spec fn spec_row_line(row: (Seq<char>, Seq<char>, Seq<char>), width: int) -> Seq<char> {
    "\u{2502} "@ + spec_left(row.0, blen(row.0), width) + " \u{2502} "@ + spec_center(
        row.1,
        blen(row.1),
        10,
    ) + " \u{2502} "@ + spec_center(row.2, blen(row.2), 25) + " \u{2502}\n"@
}

/// The rows of the table, each under its separator line.
pub open spec fn spec_rows_block(
    rows: Seq<(Seq<char>, Seq<char>, Seq<char>)>,
    width: int,
) -> Seq<char>
    decreases rows.len(),
{
    if rows.len() == 0 {
        Seq::empty()
    } else {
        spec_rows_block(rows.drop_last(), width) + spec_frame_line(
            width,
            "\u{251c}\u{2500}"@,
            "\u{2500}\u{253c}\u{2500}"@,
            "\u{2500}\u{2524}\n"@,
        ) + spec_row_line(rows.last(), width)
    }
}

/// The whole human-readable statistics table.
pub open spec fn spec_table(stats: TestStatisticsV) -> Seq<char> {
    let rows = spec_stat_rows(stats);
    let width = spec_name_width(rows);
    "\nTest Statistics:\n\n"@ + (if rows.len() == 0 {
        Seq::empty()
    } else {
        spec_frame_line(
            width,
            "\u{250c}\u{2500}"@,
            "\u{2500}\u{252c}\u{2500}"@,
            "\u{2500}\u{2510}\n"@,
        ) + spec_header_line(width) + spec_rows_block(rows, width) + spec_frame_line(
            width,
            "\u{2514}\u{2500}"@,
            "\u{2500}\u{2534}\u{2500}"@,
            "\u{2500}\u{2518}\n"@,
        )
    }) + "\n"@
}

/// The per-test output report.
pub open spec fn spec_goldens(output: Seq<(ModuleIdV, Seq<char>, Seq<char>)>) -> Seq<char>
    decreases output.len(),
{
    if output.len() == 0 {
        Seq::empty()
    } else {
        let o = output.last();
        spec_goldens(output.drop_last()) + spec_qualified(o.0.name, o.1) + "\n"@ + "Output: "@
            + o.2 + "\n"@
    }
}

fn frame_line(width: usize, lsym: &str, jsym: &str, rsym: &str) -> (r: String)
    ensures
        r@ == spec_frame_line(width as int, lsym@, jsym@, rsym@),
{
    let mut s = String::new();
    s.append(lsym);
    s.append(rules(width).as_str());
    s.append(jsym);
    s.append(rules(10).as_str());
    s.append(jsym);
    s.append(rules(25).as_str());
    s.append(rsym);
    assert(s@ =~= spec_frame_line(width as int, lsym@, jsym@, rsym@));
    s
}

/// The final outcome of a run, ready to report: the merged statistics
/// and the plan they came from.
#[derive(Debug)]
pub struct TestResults {
    pub final_statistics: TestStatistics,
    pub test_plan: TestPlan,
}

impl TestResults {
    pub fn new(final_statistics: TestStatistics, test_plan: TestPlan) -> (r: TestResults)
        ensures
            r.final_statistics == final_statistics,
            r.test_plan == test_plan,
    {
        TestResults { final_statistics, test_plan }
    }

    /// Write the per-test output report.
    pub fn report_goldens(&self, out: &mut String)
        ensures
            final(out)@ == old(out)@ + spec_goldens(self.final_statistics@.output),
    {
        let ghost base = old(out)@;
        let entries = &self.final_statistics.output;
        let n = entries.len();
        let ghost view = self.final_statistics@.output;
        let mut i: usize = 0;
        proof {
            assert(out@ =~= base + spec_goldens(view.take(0)));
        }
        while i < n
            invariant
                n == entries@.len(),
                entries@ == self.final_statistics.output@,
                view == self.final_statistics@.output,
                view.len() == n,
                i <= n,
                out@ == base + spec_goldens(view.take(i as int)),
            decreases n - i,
        {
            let entry = &entries[i];
            proof {
                assert(view =~= entries@.map_values(
                    |p: (ModuleId, String, String)| (p.0@, p.1@, p.2@),
                ));
                assert(view[i as int] == (entries@[i as int].0@, entries@[i as int].1@, entries@[
                    i as int].2@));
                assert(*entry == entries@[i as int]);
            }
            out.append(qualified_name(&entry.0, entry.1.as_str()).as_str());
            out.append("\n");
            out.append("Output: ");
            out.append(entry.2.as_str());
            out.append("\n");
            proof {
                assert(view.take(i + 1).drop_last() =~= view.take(i as int));
                assert(view.take(i + 1).last() == view[i as int]);
                assert(out@ =~= base + spec_goldens(view.take(i + 1)));
            }
            i += 1;
        }
        proof {
            assert(view.take(n as int) =~= view);
        }
    }

    /// Write the statistics report.  A caller asking for `csv` gets
    /// the comma-separated report of the passed tests; any other
    /// named format earns a warning for the error stream, returned
    /// here, and falls back to the table, as does no format at all.
    pub fn report_statistics(&self, out: &mut String, report_format: &Option<String>) -> (warning:
        Option<String>)
        ensures
            match *report_format {
                Option::Some(f) => if f@ == "csv"@ {
                    final(out)@ == old(out)@ + spec_csv(self.final_statistics@) && warning
                        is None
                } else {
                    final(out)@ == old(out)@ + spec_table(self.final_statistics@)
                        && (warning matches Option::Some(w) && w@ == "Unknown output format '"@
                        + f@ + "' provided. Defaulting to basic format."@)
                },
                Option::None => final(out)@ == old(out)@ + spec_table(self.final_statistics@)
                    && warning is None,
            },
    {
        let mut warning: Option<String> = Option::None;
        if let Option::Some(report_type) = report_format {
            let csv = String::from_str("csv");
            if *report_type == csv {
                self.write_csv(out);
                return Option::None;
            } else {
                let mut w = String::from_str("Unknown output format '");
                w.append(report_type.as_str());
                w.append("' provided. Defaulting to basic format.");
                assert(w@ =~= "Unknown output format '"@ + report_type@
                    + "' provided. Defaulting to basic format."@);
                warning = Option::Some(w);
            }
        }
        self.write_table(out);
        warning
    }

    #[verifier::spinoff_prover]
    fn write_csv(&self, out: &mut String)
        ensures
            final(out)@ == old(out)@ + spec_csv(self.final_statistics@),
    {
        let ghost base = old(out)@;
        out.append("name,nanos,gas\n");
        let entries = &self.final_statistics.passed;
        let ghost view = self.final_statistics@.passed;
        let n = entries.len();
        let mut i: usize = 0;
        proof {
            assert(out@ =~= base + "name,nanos,gas\n"@ + spec_csv_rows(view.take(0)));
        }
        while i < n
            invariant
                n == entries@.len(),
                entries@ == self.final_statistics.passed@,
                view == self.final_statistics@.passed,
                view.len() == n,
                i <= n,
                out@ == base + "name,nanos,gas\n"@ + spec_csv_rows(view.take(i as int)),
            decreases n - i,
        {
            let entry = &entries[i];
            proof {
                assert(view[i as int] == (entry.0@, entry.1@));
            }
            out.append(qualified_name(&entry.0, entry.1.function_ident.as_str()).as_str());
            out.append(",");
            out.append(decimal(entry.1.elapsed_nanos).as_str());
            out.append(",");
            out.append(decimal(entry.1.instructions_executed).as_str());
            out.append("\n");
            proof {
                assert(view.take(i + 1).drop_last() =~= view.take(i as int));
                assert(view.take(i + 1).last() == view[i as int]);
                assert(out@ =~= base + "name,nanos,gas\n"@ + spec_csv_rows(view.take(i + 1)));
            }
            i += 1;
        }
        proof {
            assert(view.take(n as int) =~= view);
            assert(out@ =~= base + spec_csv(self.final_statistics@));
        }
    }

    fn build_rows(&self) -> (rows: Vec<(String, String, String)>)
        ensures
            rows@.map_values(|t: (String, String, String)| (t.0@, t.1@, t.2@)) == spec_stat_rows(
                self.final_statistics@,
            ),
    {
        let ghost target = spec_stat_rows(self.final_statistics@);
        let ghost pview = self.final_statistics@.passed;
        let ghost fview = self.final_statistics@.failed;
        let mut rows: Vec<(String, String, String)> = Vec::new();
        let passed = &self.final_statistics.passed;
        let n = passed.len();
        let mut i: usize = 0;
        while i < n
            invariant
                n == passed@.len(),
                passed@ == self.final_statistics.passed@,
                pview == self.final_statistics@.passed,
                pview.len() == n,
                i <= n,
                rows@.len() == i,
                forall|j: int|
                    0 <= j < i ==> (#[trigger] rows@[j]).0@ == spec_row_of(pview[j].0, pview[j].1).0
                        && rows@[j].1@ == spec_row_of(pview[j].0, pview[j].1).1 && rows@[j].2@
                        == spec_row_of(pview[j].0, pview[j].1).2,
            decreases n - i,
        {
            let entry = &passed[i];
            proof {
                assert(pview[i as int] == (entry.0@, entry.1@));
            }
            let name = qualified_name(&entry.0, entry.1.function_ident.as_str());
            let time = seconds(entry.1.elapsed_nanos);
            let gas = decimal(entry.1.instructions_executed);
            let ghost prev_rows = rows@;
            rows.push((name, time, gas));
            proof {
                assert forall|j: int| 0 <= j < i + 1 implies (#[trigger] rows@[j]).0@
                    == spec_row_of(pview[j].0, pview[j].1).0 && rows@[j].1@ == spec_row_of(
                    pview[j].0,
                    pview[j].1,
                ).1 && rows@[j].2@ == spec_row_of(pview[j].0, pview[j].1).2 by {
                    assert(rows@ == prev_rows.push((name, time, gas)));
                    if j < i {
                        assert(rows@[j] == prev_rows[j]);
                    } else {
                        assert(rows@[j] == (name, time, gas));
                    }
                }
            }
            i += 1;
        }
        let failed = &self.final_statistics.failed;
        let m = failed.len();
        let mut k: usize = 0;
        proof {
            assert(pview.take(n as int) =~= pview);
        }
        while k < m
            invariant
                m == failed@.len(),
                failed@ == self.final_statistics.failed@,
                pview == self.final_statistics@.passed,
                fview == self.final_statistics@.failed,
                fview.len() == m,
                k <= m,
                rows@.len() == pview.len() + k,
                forall|j: int|
                    0 <= j < pview.len() ==> (#[trigger] rows@[j]).0@ == spec_row_of(
                        pview[j].0,
                        pview[j].1,
                    ).0 && rows@[j].1@ == spec_row_of(pview[j].0, pview[j].1).1 && rows@[j].2@
                        == spec_row_of(pview[j].0, pview[j].1).2,
                forall|j: int|
                    pview.len() <= j < pview.len() + k ==> (#[trigger] rows@[j]).0@ == spec_row_of(
                        fview[j - pview.len()].0,
                        fview[j - pview.len()].1.test_run_info,
                    ).0 && rows@[j].1@ == spec_row_of(
                        fview[j - pview.len()].0,
                        fview[j - pview.len()].1.test_run_info,
                    ).1 && rows@[j].2@ == spec_row_of(
                        fview[j - pview.len()].0,
                        fview[j - pview.len()].1.test_run_info,
                    ).2,
            decreases m - k,
        {
            let entry = &failed[k];
            proof {
                assert(fview[k as int] == (entry.0@, entry.1@));
            }
            let name = qualified_name(&entry.0, entry.1.test_run_info.function_ident.as_str());
            let time = seconds(entry.1.test_run_info.elapsed_nanos);
            let gas = decimal(entry.1.test_run_info.instructions_executed);
            let ghost prev_rows = rows@;
            rows.push((name, time, gas));
            proof {
                assert(rows@ == prev_rows.push((name, time, gas)));
                assert(rows@[pview.len() + k] == (name, time, gas));
                assert(forall|j: int| 0 <= j < pview.len() + k ==> rows@[j] == prev_rows[j]);
            }
            k += 1;
        }
        proof {
            let target = spec_stat_rows(self.final_statistics@);
            assert forall|j: int| 0 <= j < rows@.len() implies rows@.map_values(
                |t: (String, String, String)| (t.0@, t.1@, t.2@),
            )[j] == target[j] by {
                assert(rows@.map_values(|t: (String, String, String)| (t.0@, t.1@, t.2@))[j] == (
                    rows@[j].0@,
                    rows@[j].1@,
                    rows@[j].2@,
                ));
                if j < pview.len() {
                    assert(target[j] == pview.map_values(
                        |p: (ModuleIdV, TestRunInfoV)| spec_row_of(p.0, p.1),
                    )[j]);
                    assert(target[j] == spec_row_of(pview[j].0, pview[j].1));
                } else {
                    assert(target[j] == fview.map_values(
                        |p: (ModuleIdV, TestFailureV)| spec_row_of(p.0, p.1.test_run_info),
                    )[j - pview.len()]);
                    assert(target[j] == spec_row_of(
                        fview[j - pview.len()].0,
                        fview[j - pview.len()].1.test_run_info,
                    ));
                }
            }
            assert(rows@.map_values(|t: (String, String, String)| (t.0@, t.1@, t.2@))
                =~= spec_stat_rows(self.final_statistics@));
        }
        rows
    }


    /// Append one table row under its separator line.
    fn append_table_row(out: &mut String, row: &(String, String, String), width: usize)
        ensures
            final(out)@ == old(out)@ + spec_frame_line(
                width as int,
                "\u{251c}\u{2500}"@,
                "\u{2500}\u{253c}\u{2500}"@,
                "\u{2500}\u{2524}\n"@,
            ) + spec_row_line((row.0@, row.1@, row.2@), width as int),
    {
        let ghost base = old(out)@;
        out.append(frame_line(width, "\u{251c}\u{2500}", "\u{2500}\u{253c}\u{2500}", "\u{2500}\u{2524}\n").as_str());
        out.append("\u{2502} ");
        out.append(left(row.0.as_str(), width).as_str());
        out.append(" \u{2502} ");
        out.append(center(row.1.as_str(), 10).as_str());
        out.append(" \u{2502} ");
        out.append(center(row.2.as_str(), 25).as_str());
        out.append(" \u{2502}\n");
        proof {
            assert(out@ =~= base + spec_frame_line(
                width as int,
                "\u{251c}\u{2500}"@,
                "\u{2500}\u{253c}\u{2500}"@,
                "\u{2500}\u{2524}\n"@,
            ) + spec_row_line((row.0@, row.1@, row.2@), width as int));
        }
    }

    #[verifier::rlimit(100)]
    #[verifier::spinoff_prover]
    fn write_table(&self, out: &mut String)
        ensures
            final(out)@ == old(out)@ + spec_table(self.final_statistics@),
    {
        let ghost base = old(out)@;
        let rows = self.build_rows();
        let ghost rview = rows@.map_values(|t: (String, String, String)| (t.0@, t.1@, t.2@));
        out.append("\nTest Statistics:\n\n");
        let n = rows.len();
        let mut width: usize = 0;
        let mut i: usize = 0;
        while i < n
            invariant
                n == rows@.len(),
                rview == rows@.map_values(|t: (String, String, String)| (t.0@, t.1@, t.2@)),
                rview.len() == n,
                i <= n,
                width as int == spec_name_width(rview.take(i as int)),
            decreases n - i,
        {
            let len = rows[i].0.as_str().len();
            proof {
                assert(rview[i as int] == (rows@[i as int].0@, rows@[i as int].1@, rows@[
                    i as int].2@));
                assert(blen(rview[i as int].0) == len as int);
            }
            if len > width {
                width = len;
            }
            proof {
                assert(rview.take(i + 1).drop_last() =~= rview.take(i as int));
                assert(rview.take(i + 1).last() == rview[i as int]);
            }
            i += 1;
        }
        proof {
            assert(rview.take(n as int) =~= rview);
        }
        if n > 0 {
            out.append(frame_line(width, "\u{250c}\u{2500}", "\u{2500}\u{252c}\u{2500}", "\u{2500}\u{2510}\n").as_str());
            out.append("\u{2502} ");
            out.append(center("Test Name", width).as_str());
            out.append(" \u{2502} ");
            out.append(center("Time", 10).as_str());
            out.append(" \u{2502} ");
            out.append(center("Gas Used", 25).as_str());
            out.append(" \u{2502}\n");
            proof {
                assert(out@ =~= base + "\nTest Statistics:\n\n"@ + spec_frame_line(
                    width as int,
                    "\u{250c}\u{2500}"@,
                    "\u{2500}\u{252c}\u{2500}"@,
                    "\u{2500}\u{2510}\n"@,
                ) + spec_header_line(width as int) + spec_rows_block(rview.take(0), width as int));
            }
            let mut k: usize = 0;
            while k < n
                invariant
                    n == rows@.len(),
                    rview == rows@.map_values(|t: (String, String, String)| (t.0@, t.1@, t.2@)),
                    rview.len() == n,
                    k <= n,
                    out@ == base + "\nTest Statistics:\n\n"@ + spec_frame_line(
                        width as int,
                        "\u{250c}\u{2500}"@,
                        "\u{2500}\u{252c}\u{2500}"@,
                        "\u{2500}\u{2510}\n"@,
                    ) + spec_header_line(width as int) + spec_rows_block(
                        rview.take(k as int),
                        width as int,
                    ),
                decreases n - k,
            {
                let row = &rows[k];
                proof {
                    assert(rview[k as int] == (row.0@, row.1@, row.2@));
                }
                Self::append_table_row(out, row, width);
                proof {
                    assert(rview.take(k + 1).drop_last() =~= rview.take(k as int));
                    assert(rview.take(k + 1).last() == rview[k as int]);
                    assert(out@ =~= base + "\nTest Statistics:\n\n"@ + spec_frame_line(
                        width as int,
                        "\u{250c}\u{2500}"@,
                        "\u{2500}\u{252c}\u{2500}"@,
                        "\u{2500}\u{2510}\n"@,
                    ) + spec_header_line(width as int) + spec_rows_block(
                        rview.take(k + 1),
                        width as int,
                    ));
                }
                k += 1;
            }
            out.append(frame_line(width, "\u{2514}\u{2500}", "\u{2500}\u{2534}\u{2500}", "\u{2500}\u{2518}\n").as_str());
            proof {
                assert(rview.take(n as int) =~= rview);
            }
        }
        out.append("\n");
        proof {
            assert(out@ =~= base + spec_table(self.final_statistics@));
        }
    }


    /// Append one failed test's framed block, under its module
    /// heading when it opens a new module's section.
    fn append_fail_block(
        out: &mut String,
        module_id: &ModuleId,
        failure: &TestFailure,
        new_module: bool,
        colorize: bool,
    )
        ensures
            final(out)@ == old(out)@ + (if new_module {
                "Failures in "@ + module_id@.name + ":\n"@
            } else {
                Seq::<char>::empty()
            }) + spec_fail_block(failure@, colorize),
    {
        let ghost base = old(out)@;
        if new_module {
            out.append("Failures in ");
            out.append(module_id.name.as_str());
            out.append(":\n");
        }
        out.append("\n\u{250c}\u{2500}\u{2500} ");
        out.append(
            colored("\u{1b}[1m", failure.test_run_info.function_ident.as_str(), colorize).as_str(),
        );
        out.append(" \u{2500}\u{2500}\u{2500}\u{2500}\u{2500}\u{2500}\n");
        out.append("\u{2502} ");
        let lines = failure.render_error_lines();
        out.append(join_lines(&lines, "\n\u{2502} ").as_str());
        out.append("\n\u{2514}\u{2500}\u{2500}\u{2500}\u{2500}\u{2500}\u{2500}\u{2500}\u{2500}\u{2500}\u{2500}\u{2500}\u{2500}\u{2500}\u{2500}\u{2500}\u{2500}\u{2500}\u{2500}\n\n");
        proof {
            assert(out@ =~= base + (if new_module {
                "Failures in "@ + module_id@.name + ":\n"@
            } else {
                Seq::<char>::empty()
            }) + spec_fail_block(failure@, colorize));
        }
    }

    /// Write the failure report and the summary line, and say whether
    /// every test passed.
    #[verifier::rlimit(100)]
    pub fn summarize(self, out: &mut String, colorize: bool) -> (all_passed: bool)
        requires
            self.final_statistics.passed@.len() + self.final_statistics.failed@.len()
                <= u64::MAX,
        ensures
            all_passed == (self.final_statistics@.failed.len() == 0),
            final(out)@ == old(out)@ + spec_summarize_text(self.final_statistics@, colorize),
    {
        let ghost base = old(out)@;
        let ghost stats = self.final_statistics@;
        let failed = &self.final_statistics.failed;
        let ghost fview = self.final_statistics@.failed;
        let num_failed = failed.len();
        let num_passed = self.final_statistics.passed.len();
        if num_failed > 0 {
            out.append("\nTest failures:\n\n");
            let modules = failed_module_ids(failed);
            let ghost dmview = modules@.map_values(|m: ModuleId| m@);
            let module_count = modules.len();
            let mut t: usize = 0;
            proof {
                assert(out@ =~= base + "\nTest failures:\n\n"@ + spec_sections_for(
                    dmview.take(0),
                    fview,
                    colorize,
                ));
            }
            while t < module_count
                invariant
                    module_count == modules@.len(),
                    dmview == modules@.map_values(|m: ModuleId| m@),
                    dmview.len() == module_count,
                    failed@ == self.final_statistics.failed@,
                    fview == self.final_statistics@.failed,
                    fview.len() == num_failed,
                    num_failed == failed@.len(),
                    t <= module_count,
                    out@ == base + "\nTest failures:\n\n"@ + spec_sections_for(
                        dmview.take(t as int),
                        fview,
                        colorize,
                    ),
                decreases module_count - t,
            {
                let module_id = &modules[t];
                proof {
                    assert(dmview[t as int] == module_id@);
                    assert(dmview.take(t + 1).drop_last() =~= dmview.take(t as int));
                    assert(dmview.take(t + 1).last() == dmview[t as int]);
                }
                out.append("Failures in ");
                out.append(module_id.name.as_str());
                out.append(":\n");
                let ghost section_base = out@;
                let mut k: usize = 0;
                proof {
                    assert(out@ =~= section_base + spec_fail_blocks(
                        spec_module_failures(fview.take(0), module_id@),
                        colorize,
                    ));
                }
                while k < num_failed
                    invariant
                        num_failed == failed@.len(),
                        failed@ == self.final_statistics.failed@,
                        fview == self.final_statistics@.failed,
                        fview.len() == num_failed,
                        k <= num_failed,
                        out@ == section_base + spec_fail_blocks(
                            spec_module_failures(fview.take(k as int), module_id@),
                            colorize,
                        ),
                    decreases num_failed - k,
                {
                    let entry = &failed[k];
                    proof {
                        assert(fview[k as int] == (entry.0@, entry.1@));
                        assert(fview.take(k + 1).drop_last() =~= fview.take(k as int));
                        assert(fview.take(k + 1).last() == fview[k as int]);
                    }
                    if entry.0.is_same(module_id) {
                        Self::append_fail_block(out, &entry.0, &entry.1, false, colorize);
                        proof {
                            let mf = spec_module_failures(fview.take(k as int), module_id@);
                            assert(spec_module_failures(fview.take(k + 1), module_id@) == mf.push(
                                entry.1@,
                            ));
                            assert(mf.push(entry.1@).drop_last() =~= mf);
                            assert(mf.push(entry.1@).last() == entry.1@);
                            assert(out@ =~= section_base + spec_fail_blocks(
                                spec_module_failures(fview.take(k + 1), module_id@),
                                colorize,
                            ));
                        }
                    } else {
                        proof {
                            assert(out@ =~= section_base + spec_fail_blocks(
                                spec_module_failures(fview.take(k + 1), module_id@),
                                colorize,
                            ));
                        }
                    }
                    k += 1;
                }
                proof {
                    assert(fview.take(num_failed as int) =~= fview);
                    assert(out@ =~= base + "\nTest failures:\n\n"@ + spec_sections_for(
                        dmview.take(t + 1),
                        fview,
                        colorize,
                    ));
                }
                t += 1;
            }
            proof {
                assert(dmview.take(module_count as int) =~= dmview);
                assert(out@ =~= base + "\nTest failures:\n\n"@ + spec_fail_sections(
                    fview,
                    colorize,
                ));
            }
        }
        out.append("Test result: ");
        if num_failed == 0 {
            out.append(colored("\u{1b}[1;92m", "OK", colorize).as_str());
        } else {
            out.append(colored("\u{1b}[1;91m", "FAILED", colorize).as_str());
        }
        out.append(". Total tests: ");
        out.append(decimal(num_passed as u64 + num_failed as u64).as_str());
        out.append("; passed: ");
        out.append(decimal(num_passed as u64).as_str());
        out.append("; failed: ");
        out.append(decimal(num_failed as u64).as_str());
        out.append("\n");
        proof {
            assert(out@ =~= base + spec_summarize_text(stats, colorize));
        }
        num_failed == 0
    }
}



/// The distinct failing modules, in order of first appearance.
fn failed_module_ids(failed: &Vec<(ModuleId, TestFailure)>) -> (modules: Vec<ModuleId>)
    ensures
        modules@.map_values(|m: ModuleId| m@) == spec_failed_modules(failed_view(failed@)),
{
    let ghost fview = failed_view(failed@);
    let mut modules: Vec<ModuleId> = Vec::new();
    let n = failed.len();
    let mut i: usize = 0;
    proof {
        assert(modules@.map_values(|m: ModuleId| m@) =~= spec_failed_modules(fview.take(0)));
    }
    while i < n
        invariant
            n == failed@.len(),
            fview == failed_view(failed@),
            fview.len() == n,
            i <= n,
            modules@.map_values(|m: ModuleId| m@) == spec_failed_modules(fview.take(i as int)),
        decreases n - i,
    {
        let entry = &failed[i];
        let ghost mview = modules@.map_values(|m: ModuleId| m@);
        proof {
            assert(fview[i as int] == (entry.0@, entry.1@));
            assert(fview.take(i + 1).drop_last() =~= fview.take(i as int));
            assert(fview.take(i + 1).last() == fview[i as int]);
        }
        let mut seen = false;
        let mn = modules.len();
        let mut j: usize = 0;
        while j < mn && !seen
            invariant
                mn == modules@.len(),
                mview == modules@.map_values(|m: ModuleId| m@),
                mview.len() == mn,
                j <= mn,
                !seen ==> forall|q: int| 0 <= q < j ==> #[trigger] mview[q] != entry.0@,
                seen ==> mview.contains(entry.0@),
            decreases mn - j,
        {
            proof {
                assert(mview[j as int] == modules@[j as int]@);
            }
            if modules[j].is_same(&entry.0) {
                seen = true;
                j = mn;
            } else {
                j += 1;
            }
        }
        proof {
            if !seen {
                assert(!mview.contains(entry.0@));
            }
        }
        if !seen {
            let ghost prev = modules@;
            modules.push(entry.0.duplicate());
            proof {
                assert(modules@ == prev.push(modules@[prev.len() as int]));
                assert(modules@.map_values(|m: ModuleId| m@) =~= mview.push(entry.0@));
                assert(modules@.map_values(|m: ModuleId| m@) =~= spec_failed_modules(
                    fview.take(i + 1),
                ));
            }
        } else {
            proof {
                assert(modules@.map_values(|m: ModuleId| m@) =~= spec_failed_modules(
                    fview.take(i + 1),
                ));
            }
        }
        i += 1;
    }
    proof {
        assert(fview.take(n as int) =~= fview);
    }
    modules
}

/// The set of members of a concatenation is the union of the two
/// sets of members.
pub proof fn lemma_to_set_add<T>(a: Seq<T>, b: Seq<T>)
    ensures
        (a + b).to_set() == a.to_set().union(b.to_set()),
{
    assert forall|x: T| #[trigger] (a + b).to_set().contains(x) implies a.to_set().union(
        b.to_set(),
    ).contains(x) by {
        let i = choose|i: int| 0 <= i < (a + b).len() && (a + b)[i] == x;
        if i < a.len() {
            assert(a[i] == x);
        } else {
            assert(b[i - a.len()] == x);
        }
    }
    assert forall|x: T| a.to_set().union(b.to_set()).contains(x) implies #[trigger] (a
        + b).to_set().contains(x) by {
        if a.to_set().contains(x) {
            let i = choose|i: int| 0 <= i < a.len() && a[i] == x;
            assert((a + b)[i] == x);
        } else {
            let i = choose|i: int| 0 <= i < b.len() && b[i] == x;
            assert((a + b)[a.len() + i] == x);
        }
    }
    assert((a + b).to_set() =~= a.to_set().union(b.to_set()));
}

/// The members of a nonempty sequence are the members before the
/// last, and the last.
proof fn lemma_to_set_last<T>(s: Seq<T>)
    requires
        s.len() > 0,
    ensures
        s.to_set() == s.drop_last().to_set().insert(s.last()),
{
    assert(s =~= s.drop_last() + seq![s.last()]);
    lemma_to_set_add(s.drop_last(), seq![s.last()]);
    assert(seq![s.last()].to_set() =~= Set::empty().insert(s.last()));
    assert(s.drop_last().to_set().union(Set::empty().insert(s.last()))
        =~= s.drop_last().to_set().insert(s.last()));
}

/// Inserting map-fashion adds exactly the one member.
proof fn lemma_insert_content<T>(s: Seq<(ModuleIdV, T)>, x: (ModuleIdV, T))
    ensures
        spec_insert(s, x).to_set() == s.to_set().insert(x),
{
    if s.contains(x) {
        assert(s.to_set().contains(x));
        assert(s.to_set().insert(x) =~= s.to_set());
    } else {
        lemma_place_contains(s, x);
        assert(spec_insert(s, x).to_set() =~= s.to_set().insert(x)) by {
            assert forall|y: (ModuleIdV, T)| #[trigger] spec_place(s, x).to_set().contains(
                y,
            ) implies s.to_set().insert(x).contains(y) by {
                assert(spec_place(s, x).contains(y));
            }
            assert forall|y: (ModuleIdV, T)| s.to_set().insert(x).contains(y) implies #[trigger] spec_place(
                s,
                x,
            ).to_set().contains(y) by {
                assert(spec_place(s, x).contains(y));
            }
        }
    }
}

/// Merging map-fashion unites the members.
proof fn lemma_merge_set_content<T>(base: Seq<(ModuleIdV, T)>, extra: Seq<(ModuleIdV, T)>)
    ensures
        spec_merge_set(base, extra).to_set() == base.to_set().union(extra.to_set()),
    decreases extra.len(),
{
    if extra.len() == 0 {
        assert(extra.to_set() =~= Set::<(ModuleIdV, T)>::empty());
        assert(spec_merge_set(base, extra).to_set() =~= base.to_set().union(extra.to_set()));
    } else {
        lemma_merge_set_content(base, extra.drop_last());
        lemma_insert_content(spec_merge_set(base, extra.drop_last()), extra.last());
        lemma_to_set_last(extra);
        assert(spec_merge_set(base, extra).to_set() =~= base.to_set().union(extra.to_set()));
    }
}

/// Taking an absent key out of the output map changes nothing.
proof fn lemma_output_without_noop(
    s: Seq<(ModuleIdV, Seq<char>, Seq<char>)>,
    module_id: ModuleIdV,
    test_name: Seq<char>,
)
    requires
        forall|k: int|
            0 <= k < s.len() ==> !((#[trigger] s[k]).0 == module_id && s[k].1 == test_name),
    ensures
        spec_output_without(s, module_id, test_name) == s,
    decreases s.len(),
{
    if s.len() > 0 {
        assert(!(s[s.len() - 1].0 == module_id && s[s.len() - 1].1 == test_name));
        lemma_output_without_noop(s.drop_last(), module_id, test_name);
        assert(spec_output_without(s, module_id, test_name) =~= s);
    } else {
        assert(spec_output_without(s, module_id, test_name) =~= s);
    }
}

/// No two output records of the two maps share a key.
pub open spec fn output_keys_disjoint(
    a: Seq<(ModuleIdV, Seq<char>, Seq<char>)>,
    b: Seq<(ModuleIdV, Seq<char>, Seq<char>)>,
) -> bool {
    forall|i: int, j: int|
        0 <= i < a.len() && 0 <= j < b.len() ==> !((#[trigger] a[i]).0 == (#[trigger] b[j]).0
            && a[i].1 == b[j].1)
}

/// Merging outputs whose keys collide nowhere unites the members.
proof fn lemma_merge_outputs_content(
    base: Seq<(ModuleIdV, Seq<char>, Seq<char>)>,
    extra: Seq<(ModuleIdV, Seq<char>, Seq<char>)>,
)
    requires
        output_keys_disjoint(base, extra),
        output_keys_unique(extra),
    ensures
        spec_merge_outputs(base, extra).to_set() == base.to_set().union(extra.to_set()),
    decreases extra.len(),
{
    if extra.len() == 0 {
        assert(extra.to_set() =~= Set::<(ModuleIdV, Seq<char>, Seq<char>)>::empty());
        assert(spec_merge_outputs(base, extra).to_set() =~= base.to_set().union(extra.to_set()));
    } else {
        let prefix = extra.drop_last();
        let last = extra.last();
        assert(output_keys_disjoint(base, prefix)) by {
            assert(forall|j: int| 0 <= j < prefix.len() ==> prefix[j] == extra[j]);
        }
        assert(output_keys_unique(prefix));
        lemma_merge_outputs_content(base, prefix);
        let prev = spec_merge_outputs(base, prefix);
        assert forall|k: int| 0 <= k < prev.len() implies !((#[trigger] prev[k]).0 == last.0
            && prev[k].1 == last.1) by {
            assert(prev.to_set().contains(prev[k]));
            if base.to_set().contains(prev[k]) {
                let q = choose|q: int| 0 <= q < base.len() && base[q] == prev[k];
                assert(extra[extra.len() - 1] == last);
            } else {
                assert(prefix.to_set().contains(prev[k]));
                let q = choose|q: int| 0 <= q < prefix.len() && prefix[q] == prev[k];
                assert(extra[q] == prev[k]);
                assert(extra[extra.len() - 1] == last);
            }
        }
        lemma_output_without_noop(prev, last.0, last.1);
        lemma_place_output_contains(prev, last);
        assert(spec_put_output(prev, last).to_set() =~= prev.to_set().insert(last)) by {
            assert forall|y: (ModuleIdV, Seq<char>, Seq<char>)| #[trigger] spec_put_output(
                prev,
                last,
            ).to_set().contains(y) implies prev.to_set().insert(last).contains(y) by {
                assert(spec_place_output(prev, last).contains(y));
            }
            assert forall|y: (ModuleIdV, Seq<char>, Seq<char>)|
                prev.to_set().insert(last).contains(y) implies #[trigger] spec_put_output(
                prev,
                last,
            ).to_set().contains(y) by {
                assert(spec_place_output(prev, last).contains(y));
            }
        }
        lemma_to_set_last(extra);
        assert(spec_merge_outputs(base, extra).to_set() =~= base.to_set().union(extra.to_set()));
    }
}

/// Whether the statistics hold any record of this module.
pub open spec fn has_module(s: TestStatisticsV, m: ModuleIdV) -> bool {
    (exists|i: int| 0 <= i < s.passed.len() && (#[trigger] s.passed[i]).0 == m) || (exists|i: int|
        0 <= i < s.failed.len() && (#[trigger] s.failed[i]).0 == m) || (exists|i: int|
        0 <= i < s.output.len() && (#[trigger] s.output[i]).0 == m)
}

/// Per-module statistics are disjoint: no module is recorded in
/// both.
pub open spec fn disjoint_stats(a: TestStatisticsV, b: TestStatisticsV) -> bool {
    forall|m: ModuleIdV|
        #![trigger has_module(a, m), has_module(b, m)]
        !(has_module(a, m) && has_module(b, m))
}

proof fn lemma_disjoint_output_keys(a: TestStatisticsV, b: TestStatisticsV)
    requires
        disjoint_stats(a, b),
    ensures
        output_keys_disjoint(a.output, b.output),
{
    assert forall|i: int, j: int| 0 <= i < a.output.len() && 0 <= j < b.output.len() implies !((
    #[trigger] a.output[i]).0 == (#[trigger] b.output[j]).0 && a.output[i].1 == b.output[j].1) by {
        if a.output[i].0 == b.output[j].0 {
            assert(has_module(a, a.output[i].0));
            assert(has_module(b, a.output[i].0)) by {
                assert(b.output[j].0 == a.output[i].0);
            }
        }
    }
}

/// Merging disjoint per-module statistics is commutative: either way
/// round, the merged content is the union of the two contents.
pub proof fn lemma_combine_commutative(a: TestStatisticsV, b: TestStatisticsV)
    requires
        disjoint_stats(a, b),
        a.wf(),
        b.wf(),
    ensures
        a.merge(b).passed_set() == b.merge(a).passed_set(),
        a.merge(b).failed_set() == b.merge(a).failed_set(),
        a.merge(b).output_set() == b.merge(a).output_set(),
{
    lemma_merge_set_content(a.passed, b.passed);
    lemma_merge_set_content(b.passed, a.passed);
    assert(a.passed.to_set().union(b.passed.to_set()) =~= b.passed.to_set().union(
        a.passed.to_set(),
    ));
    lemma_merge_set_content(a.failed, b.failed);
    lemma_merge_set_content(b.failed, a.failed);
    assert(a.failed.to_set().union(b.failed.to_set()) =~= b.failed.to_set().union(
        a.failed.to_set(),
    ));
    lemma_disjoint_output_keys(a, b);
    lemma_disjoint_output_keys(b, a);
    lemma_merge_outputs_content(a.output, b.output);
    lemma_merge_outputs_content(b.output, a.output);
    assert(a.output.to_set().union(b.output.to_set()) =~= b.output.to_set().union(
        a.output.to_set(),
    ));
}

/// Merging pairwise disjoint per-module statistics is associative:
/// either grouping yields the union of the three contents.
pub proof fn lemma_combine_associative(a: TestStatisticsV, b: TestStatisticsV, c: TestStatisticsV)
    requires
        disjoint_stats(a, b),
        disjoint_stats(a, c),
        disjoint_stats(b, c),
        a.wf(),
        b.wf(),
        c.wf(),
    ensures
        a.merge(b).merge(c).passed_set() == a.merge(b.merge(c)).passed_set(),
        a.merge(b).merge(c).failed_set() == a.merge(b.merge(c)).failed_set(),
        a.merge(b).merge(c).output_set() == a.merge(b.merge(c)).output_set(),
{
    lemma_merge_set_content(a.passed, b.passed);
    lemma_merge_set_content(a.merge(b).passed, c.passed);
    lemma_merge_set_content(b.passed, c.passed);
    lemma_merge_set_content(a.passed, b.merge(c).passed);
    assert(a.merge(b).merge(c).passed_set() =~= a.merge(b.merge(c)).passed_set());
    lemma_merge_set_content(a.failed, b.failed);
    lemma_merge_set_content(a.merge(b).failed, c.failed);
    lemma_merge_set_content(b.failed, c.failed);
    lemma_merge_set_content(a.failed, b.merge(c).failed);
    assert(a.merge(b).merge(c).failed_set() =~= a.merge(b.merge(c)).failed_set());
    lemma_disjoint_output_keys(a, b);
    lemma_disjoint_output_keys(a, c);
    lemma_disjoint_output_keys(b, c);
    lemma_merge_outputs_content(a.output, b.output);
    assert(output_keys_disjoint(a.merge(b).output, c.output)) by {
        assert forall|i: int, j: int|
            0 <= i < a.merge(b).output.len() && 0 <= j < c.output.len() implies !((#[trigger] a.merge(
            b,
        ).output[i]).0 == (#[trigger] c.output[j]).0 && a.merge(b).output[i].1 == c.output[j].1)
            by {
            let y = a.merge(b).output[i];
            assert(a.merge(b).output.to_set().contains(y));
            if a.output.to_set().contains(y) {
                let q = choose|q: int| 0 <= q < a.output.len() && a.output[q] == y;
            } else {
                assert(b.output.to_set().contains(y));
                let q = choose|q: int| 0 <= q < b.output.len() && b.output[q] == y;
            }
        }
    }
    lemma_merge_outputs_content(a.merge(b).output, c.output);
    lemma_merge_outputs_content(b.output, c.output);
    assert(output_keys_disjoint(a.output, b.merge(c).output)) by {
        assert forall|i: int, j: int|
            0 <= i < a.output.len() && 0 <= j < b.merge(c).output.len() implies !((#[trigger] a.output[
            i]).0 == (#[trigger] b.merge(c).output[j]).0 && a.output[i].1 == b.merge(c).output[j].1)
            by {
            let y = b.merge(c).output[j];
            assert(b.merge(c).output.to_set().contains(y));
            if b.output.to_set().contains(y) {
                let q = choose|q: int| 0 <= q < b.output.len() && b.output[q] == y;
            } else {
                assert(c.output.to_set().contains(y));
                let q = choose|q: int| 0 <= q < c.output.len() && c.output[q] == y;
            }
        }
    }
    lemma_merge_outputs_unique(b.output, c.output);
    lemma_merge_outputs_content(a.output, b.merge(c).output);
    assert(a.merge(b).merge(c).output_set() =~= a.merge(b.merge(c)).output_set());
}

/// A collection of statistics merged in order.
pub open spec fn merge_all(ss: Seq<TestStatisticsV>) -> TestStatisticsV
    decreases ss.len(),
{
    if ss.len() == 0 {
        TestStatisticsV::empty()
    } else {
        merge_all(ss.drop_last()).merge(ss.last())
    }
}

/// The united passed records of a collection of statistics.
pub open spec fn union_passed(ss: Seq<TestStatisticsV>) -> Set<(ModuleIdV, TestRunInfoV)>
    decreases ss.len(),
{
    if ss.len() == 0 {
        Set::empty()
    } else {
        union_passed(ss.drop_last()).union(ss.last().passed_set())
    }
}

/// The united failed records of a collection of statistics.
pub open spec fn union_failed(ss: Seq<TestStatisticsV>) -> Set<(ModuleIdV, TestFailureV)>
    decreases ss.len(),
{
    if ss.len() == 0 {
        Set::empty()
    } else {
        union_failed(ss.drop_last()).union(ss.last().failed_set())
    }
}

/// The united output records of a collection of statistics.
pub open spec fn union_outputs(ss: Seq<TestStatisticsV>) -> Set<(ModuleIdV, Seq<char>, Seq<char>)>
    decreases ss.len(),
{
    if ss.len() == 0 {
        Set::empty()
    } else {
        union_outputs(ss.drop_last()).union(ss.last().output_set())
    }
}

/// A collection of per-module statistics as the reduction receives
/// them: each well-formed, every two disjoint.
pub open spec fn stats_seq_wf(ss: Seq<TestStatisticsV>) -> bool {
    &&& forall|i: int| 0 <= i < ss.len() ==> (#[trigger] ss[i]).wf()
    &&& forall|i: int, j: int|
        0 <= i < ss.len() && 0 <= j < ss.len() && i != j ==> disjoint_stats(
            #[trigger] ss[i],
            #[trigger] ss[j],
        )
}

/// Every united output record stems from one of the collection's
/// members.
proof fn lemma_union_outputs_member(ss: Seq<TestStatisticsV>, y: (ModuleIdV, Seq<char>, Seq<char>))
    requires
        union_outputs(ss).contains(y),
    ensures
        exists|i: int| 0 <= i < ss.len() && (#[trigger] ss[i]).output_set().contains(y),
    decreases ss.len(),
{
    if ss.len() > 0 {
        if ss.last().output_set().contains(y) {
            assert(ss[ss.len() - 1].output_set().contains(y));
        } else {
            lemma_union_outputs_member(ss.drop_last(), y);
            let i = choose|i: int|
                0 <= i < ss.drop_last().len() && (#[trigger] ss.drop_last()[i]).output_set()
                    .contains(y);
            assert(ss[i].output_set().contains(y));
        }
    }
}

/// Every united passed record stems from one of the collection's
/// members.
pub proof fn lemma_union_passed_member(ss: Seq<TestStatisticsV>, y: (ModuleIdV, TestRunInfoV))
    requires
        union_passed(ss).contains(y),
    ensures
        exists|i: int| 0 <= i < ss.len() && (#[trigger] ss[i]).passed_set().contains(y),
    decreases ss.len(),
{
    if ss.len() > 0 {
        if ss.last().passed_set().contains(y) {
            assert(ss[ss.len() - 1].passed_set().contains(y));
        } else {
            lemma_union_passed_member(ss.drop_last(), y);
            let i = choose|i: int|
                0 <= i < ss.drop_last().len() && (#[trigger] ss.drop_last()[i]).passed_set()
                    .contains(y);
            assert(ss[i].passed_set().contains(y));
        }
    }
}

/// Every united failed record stems from one of the collection's
/// members.
pub proof fn lemma_union_failed_member(ss: Seq<TestStatisticsV>, y: (ModuleIdV, TestFailureV))
    requires
        union_failed(ss).contains(y),
    ensures
        exists|i: int| 0 <= i < ss.len() && (#[trigger] ss[i]).failed_set().contains(y),
    decreases ss.len(),
{
    if ss.len() > 0 {
        if ss.last().failed_set().contains(y) {
            assert(ss[ss.len() - 1].failed_set().contains(y));
        } else {
            lemma_union_failed_member(ss.drop_last(), y);
            let i = choose|i: int|
                0 <= i < ss.drop_last().len() && (#[trigger] ss.drop_last()[i]).failed_set()
                    .contains(y);
            assert(ss[i].failed_set().contains(y));
        }
    }
}

/// A merged collection keeps the maps' invariants.
pub proof fn lemma_merge_all_wf(ss: Seq<TestStatisticsV>)
    ensures
        merge_all(ss).wf(),
    decreases ss.len(),
{
    if ss.len() == 0 {
    } else {
        lemma_merge_all_wf(ss.drop_last());
        let prev = merge_all(ss.drop_last());
        lemma_merge_set_no_dup(prev.passed, ss.last().passed);
        lemma_merge_set_no_dup(prev.failed, ss.last().failed);
        lemma_merge_outputs_unique(prev.output, ss.last().output);
        lemma_merge_set_sorted(prev.passed, ss.last().passed);
        lemma_merge_set_sorted(prev.failed, ss.last().failed);
        lemma_merge_outputs_sorted(prev.output, ss.last().output);
    }
}

/// Merging a collection in order yields exactly the union of its
/// members' contents.
pub proof fn lemma_merge_all_content(ss: Seq<TestStatisticsV>)
    requires
        stats_seq_wf(ss),
    ensures
        merge_all(ss).passed_set() == union_passed(ss),
        merge_all(ss).failed_set() == union_failed(ss),
        merge_all(ss).output_set() == union_outputs(ss),
    decreases ss.len(),
{
    if ss.len() > 0 {
        assert(stats_seq_wf(ss.drop_last())) by {
            assert(forall|i: int|
                0 <= i < ss.drop_last().len() ==> #[trigger] ss.drop_last()[i] == ss[i]);
        }
        lemma_merge_all_content(ss.drop_last());
        let prev = merge_all(ss.drop_last());
        let last = ss.last();
        lemma_merge_set_content(prev.passed, last.passed);
        lemma_merge_set_content(prev.failed, last.failed);
        assert(output_keys_disjoint(prev.output, last.output)) by {
            assert forall|i: int, j: int|
                0 <= i < prev.output.len() && 0 <= j < last.output.len() implies !((
            #[trigger] prev.output[i]).0 == (#[trigger] last.output[j]).0 && prev.output[i].1
                == last.output[j].1) by {
                let y = prev.output[i];
                assert(prev.output.to_set().contains(y));
                lemma_union_outputs_member(ss.drop_last(), y);
                let q = choose|q: int|
                    0 <= q < ss.drop_last().len() && (#[trigger] ss.drop_last()[q]).output_set()
                        .contains(y);
                let r = choose|r: int|
                    0 <= r < ss[q].output.len() && ss[q].output[r] == y;
                if y.0 == last.output[j].0 {
                    assert(has_module(ss[q], y.0));
                    assert(has_module(ss[ss.len() - 1], y.0)) by {
                        assert(ss[ss.len() - 1].output[j].0 == y.0);
                    }
                    assert(disjoint_stats(ss[q], ss[ss.len() - 1]));
                }
            }
        }
        assert(output_keys_unique(last.output)) by {
            assert(ss[ss.len() - 1].wf());
        }
        lemma_merge_outputs_content(prev.output, last.output);
        assert(merge_all(ss).passed_set() =~= union_passed(ss));
        assert(merge_all(ss).failed_set() =~= union_failed(ss));
        assert(merge_all(ss).output_set() =~= union_outputs(ss));
    }
}

/// Taking one member's contents out of the union and uniting them
/// afterwards gives the same union.
pub proof fn lemma_union_remove(ss: Seq<TestStatisticsV>, j: int)
    requires
        0 <= j < ss.len(),
    ensures
        union_passed(ss) == union_passed(ss.remove(j)).union(ss[j].passed_set()),
        union_failed(ss) == union_failed(ss.remove(j)).union(ss[j].failed_set()),
        union_outputs(ss) == union_outputs(ss.remove(j)).union(ss[j].output_set()),
    decreases ss.len(),
{
    if j == ss.len() - 1 {
        assert(ss.remove(j) =~= ss.drop_last());
    } else {
        lemma_union_remove(ss.drop_last(), j);
        let rem = ss.remove(j);
        assert(rem.drop_last() =~= ss.drop_last().remove(j));
        assert(rem.last() == ss.last());
        assert(union_passed(ss) =~= union_passed(rem).union(ss[j].passed_set()));
        assert(union_failed(ss) =~= union_failed(rem).union(ss[j].failed_set()));
        assert(union_outputs(ss) =~= union_outputs(rem).union(ss[j].output_set()));
    }
}

proof fn lemma_union_permutation(s1: Seq<TestStatisticsV>, s2: Seq<TestStatisticsV>)
    requires
        s1.to_multiset() == s2.to_multiset(),
    ensures
        union_passed(s1) == union_passed(s2),
        union_failed(s1) == union_failed(s2),
        union_outputs(s1) == union_outputs(s2),
    decreases s1.len(),
{
    broadcast use vstd::seq_lib::group_seq_properties;

    s1.to_multiset_ensures();
    s2.to_multiset_ensures();
    if s1.len() == 0 {
        assert(s2.to_multiset().len() == 0);
        assert(s2.len() == 0);
    } else {
        let x = s1.last();
        assert(s1.to_multiset().count(x) > 0) by {
            assert(s1.contains(x));
        }
        assert(s2.contains(x));
        let j = choose|j: int| 0 <= j < s2.len() && s2[j] == x;
        let s1p = s1.drop_last();
        let s2p = s2.remove(j);
        assert(s1p =~= s1.remove(s1.len() - 1));
        assert(s1p.to_multiset() =~= s1.to_multiset().remove(x));
        assert(s2p.to_multiset() =~= s2.to_multiset().remove(x));
        lemma_union_permutation(s1p, s2p);
        lemma_union_remove(s2, j);
        assert(union_passed(s1) =~= union_passed(s2));
        assert(union_failed(s1) =~= union_failed(s2));
        assert(union_outputs(s1) =~= union_outputs(s2));
    }
}

/// Merging the same per-module statistics in any order yields the
/// same contents: the parallel reduction may combine the workers'
/// results in whatever order they finish, and still agrees with the
/// serial run.
pub proof fn lemma_merge_all_permutation(s1: Seq<TestStatisticsV>, s2: Seq<TestStatisticsV>)
    requires
        s1.to_multiset() == s2.to_multiset(),
        stats_seq_wf(s1),
        stats_seq_wf(s2),
    ensures
        merge_all(s1).passed_set() == merge_all(s2).passed_set(),
        merge_all(s1).failed_set() == merge_all(s2).failed_set(),
        merge_all(s1).output_set() == merge_all(s2).output_set(),
{
    lemma_merge_all_content(s1);
    lemma_merge_all_content(s2);
    lemma_union_permutation(s1, s2);
}

} // verus!
