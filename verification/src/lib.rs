pub mod errors;
pub mod test_runner;
pub mod matcher;
pub mod text;
pub mod plan;
pub mod test_reporter;
pub mod entry_codec;

use vstd::prelude::*;

verus! {

/// The default execution bound, in gas units, for a test that names
/// none of its own.
pub const DEFAULT_EXECUTION_BOUND: u64 = 100000;

/// The recognized configuration of a test run.
#[derive(Debug)]
pub struct UnitTestingConfig {
    /// Maximum gas units a single test may consume.
    pub gas_limit: u64,
    /// Worker count; one worker makes the run serial.
    pub num_threads: usize,
    /// Run every test on the reference backend as well and compare.
    pub check_reference_vm: bool,
    pub verbose: bool,
    pub report_stacktrace_on_abort: bool,
    pub source_files: Vec<String>,
    pub dep_files: Vec<String>,
    pub named_address_values: Vec<(String, u128)>,
    /// `csv` for the comma-separated report; anything else falls back
    /// to the table.
    pub report_format: Option<String>,
}

/// A module identifier rendered for a report.
pub fn format_module_id(module_id: &crate::errors::ModuleId) -> (r: String)
    ensures
        r@ == module_id@.name,
{
    let mut s = String::new();
    s.append(module_id.name.as_str());
    assert(s@ =~= module_id@.name);
    s
}

/// Number of gas units a test consumed, computed from the configured
/// execution bound and the gas remaining on the meter afterwards.
/// The count never exceeds the bound.
pub fn instructions_consumed(execution_bound: u64, remaining_gas: u64) -> (r: u64)
    requires
        remaining_gas <= execution_bound,
    ensures
        r == execution_bound - remaining_gas,
        r <= execution_bound,
{
    execution_bound - remaining_gas
}

} // verus!
