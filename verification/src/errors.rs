use vstd::prelude::*;

verus! {

/// Major status codes of the virtual machine that the runner has to
/// recognize.  All other codes are carried through uninterpreted.
pub const MAJOR_STATUS_EXECUTED: u64 = 4001;

pub const MAJOR_STATUS_OUT_OF_GAS: u64 = 4002;

pub const MAJOR_STATUS_ABORTED: u64 = 4016;

/// The broad class of a major status code, derived from the numeric
/// range the code falls in.
#[derive(Clone, Copy, Debug, PartialEq, Eq, Structural)]
pub enum StatusType {
    Validation,
    Verification,
    InvariantViolation,
    Deserialization,
    Execution,
    Unknown,
}

pub open spec fn spec_status_type(major_status: u64) -> StatusType {
    if major_status < 1000 {
        StatusType::Validation
    } else if major_status < 2000 {
        StatusType::Verification
    } else if major_status < 3000 {
        StatusType::InvariantViolation
    } else if major_status < 4000 {
        StatusType::Deserialization
    } else if major_status < 5000 {
        StatusType::Execution
    } else {
        StatusType::Unknown
    }
}

pub fn status_type(major_status: u64) -> (t: StatusType)
    ensures
        t == spec_status_type(major_status),
{
    if major_status < 1000 {
        StatusType::Validation
    } else if major_status < 2000 {
        StatusType::Verification
    } else if major_status < 3000 {
        StatusType::InvariantViolation
    } else if major_status < 4000 {
        StatusType::Deserialization
    } else if major_status < 5000 {
        StatusType::Execution
    } else {
        StatusType::Unknown
    }
}

/// A module identifier: the address the module is published under and
/// the module's name.
#[derive(Debug, Clone, PartialEq, Eq)]
pub struct ModuleId {
    pub address: u128,
    pub name: String,
}

#[verifier::ext_equal]
pub ghost struct ModuleIdV {
    pub address: u128,
    pub name: Seq<char>,
}

impl View for ModuleId {
    type V = ModuleIdV;

    open spec fn view(&self) -> ModuleIdV {
        ModuleIdV { address: self.address, name: self.name@ }
    }
}

impl ModuleId {
    pub fn new(address: u128, name: String) -> (r: ModuleId)
        ensures
            r@ == (ModuleIdV { address, name: name@ }),
    {
        ModuleId { address, name }
    }

    /// Whether two module identifiers name the same module.
    pub fn is_same(&self, other: &ModuleId) -> (r: bool)
        ensures
            r == (self@ == other@),
    {
        let r = self.address == other.address && self.name == other.name;
        proof {
            if r {
                assert(self@ == other@);
            }
        }
        r
    }

    pub fn duplicate(&self) -> (r: ModuleId)
        ensures
            r@ == self@,
    {
        ModuleId { address: self.address, name: self.name.clone() }
    }
}

/// Where a virtual-machine error is rooted.
#[derive(Debug, Clone, PartialEq, Eq)]
pub enum ErrorLocation {
    Undefined,
    Script,
    Module(ModuleId),
}

#[verifier::ext_equal]
pub ghost enum ErrorLocationV {
    Undefined,
    Script,
    Module(ModuleIdV),
}

impl View for ErrorLocation {
    type V = ErrorLocationV;

    open spec fn view(&self) -> ErrorLocationV {
        match self {
            ErrorLocation::Undefined => ErrorLocationV::Undefined,
            ErrorLocation::Script => ErrorLocationV::Script,
            ErrorLocation::Module(m) => ErrorLocationV::Module(m@),
        }
    }
}

impl ErrorLocation {
    pub fn is_same(&self, other: &ErrorLocation) -> (r: bool)
        ensures
            r == (self@ == other@),
    {
        match (self, other) {
            (ErrorLocation::Undefined, ErrorLocation::Undefined) => true,
            (ErrorLocation::Script, ErrorLocation::Script) => true,
            (ErrorLocation::Module(a), ErrorLocation::Module(b)) => a.is_same(b),
            _ => false,
        }
    }

    pub fn duplicate(&self) -> (r: ErrorLocation)
        ensures
            r@ == self@,
    {
        match self {
            ErrorLocation::Undefined => ErrorLocation::Undefined,
            ErrorLocation::Script => ErrorLocation::Script,
            ErrorLocation::Module(m) => ErrorLocation::Module(m.duplicate()),
        }
    }
}

/// An error as the virtual machine reports it: the major status code,
/// an optional sub-status, and the location the error is rooted at.
/// Two errors are the same exactly when all three components agree.
#[derive(Debug, Clone, PartialEq, Eq)]
pub struct MoveError {
    pub major_status: u64,
    pub sub_status: Option<u64>,
    pub location: ErrorLocation,
}

#[verifier::ext_equal]
pub ghost struct MoveErrorV {
    pub major_status: u64,
    pub sub_status: Option<u64>,
    pub location: ErrorLocationV,
}

impl View for MoveError {
    type V = MoveErrorV;

    open spec fn view(&self) -> MoveErrorV {
        MoveErrorV {
            major_status: self.major_status,
            sub_status: self.sub_status,
            location: self.location@,
        }
    }
}

impl MoveError {
    pub fn new(major_status: u64, sub_status: Option<u64>, location: ErrorLocation) -> (r:
        MoveError)
        ensures
            r@ == (MoveErrorV { major_status, sub_status, location: location@ }),
    {
        MoveError { major_status, sub_status, location }
    }

    pub fn is_same(&self, other: &MoveError) -> (r: bool)
        ensures
            r == (self@ == other@),
    {
        let subs_eq = match (self.sub_status, other.sub_status) {
            (Option::None, Option::None) => true,
            (Option::Some(a), Option::Some(b)) => a == b,
            _ => false,
        };
        let r = self.major_status == other.major_status && subs_eq && self.location.is_same(
            &other.location,
        );
        proof {
            if r {
                assert(self@ == other@);
            }
        }
        r
    }

    pub fn duplicate(&self) -> (r: MoveError)
        ensures
            r@ == self@,
    {
        MoveError {
            major_status: self.major_status,
            sub_status: self.sub_status,
            location: self.location.duplicate(),
        }
    }
}

/// How an error reads in a failure report, as a verb phrase: in the
/// past tense for what the test did, in the infinitive for what it was
/// expected to do.
pub open spec fn spec_verbiage(e: MoveErrorV, past_tense: bool) -> Seq<char> {
    if e.major_status == MAJOR_STATUS_ABORTED && e.sub_status is Some {
        (if past_tense {
            "aborted with code "@
        } else {
            "to abort with code "@
        }) + crate::text::spec_decimal(e.sub_status->0 as int)
    } else {
        (if past_tense {
            "errored with status "@
        } else {
            "to error with status "@
        }) + crate::text::spec_decimal(e.major_status as int)
    }
}

impl MoveError {
    /// Render this error as a verb phrase for a failure report.
    pub fn verbiage(&self, past_tense: bool) -> (r: String)
        ensures
            r@ == spec_verbiage(self@, past_tense),
    {
        let mut s: String;
        match self.sub_status {
            Option::Some(code) if self.major_status == MAJOR_STATUS_ABORTED => {
                s = String::from_str(
                    if past_tense {
                        "aborted with code "
                    } else {
                        "to abort with code "
                    },
                );
                s.append(crate::text::decimal(code).as_str());
            },
            _ => {
                s = String::from_str(
                    if past_tense {
                        "errored with status "
                    } else {
                        "to error with status "
                    },
                );
                s.append(crate::text::decimal(self.major_status).as_str());
            },
        }
        s
    }
}

/// A test's declared expectation of failure.
#[derive(Debug, Clone, PartialEq, Eq)]
pub enum ExpectedFailure {
    /// Any failure is acceptable.
    Expected,
    /// The failure must match this error on all three components.
    ExpectedWithError(MoveError),
    /// The failure must be an abort with exactly this code (deprecated
    /// form, still supported).
    ExpectedWithCodeDeprecated(u64),
}

impl ExpectedFailure {
    pub fn duplicate(&self) -> (r: ExpectedFailure)
        ensures
            r@ == self@,
    {
        match self {
            ExpectedFailure::Expected => ExpectedFailure::Expected,
            ExpectedFailure::ExpectedWithError(e) => ExpectedFailure::ExpectedWithError(
                e.duplicate(),
            ),
            ExpectedFailure::ExpectedWithCodeDeprecated(c) => ExpectedFailure::ExpectedWithCodeDeprecated(
                *c,
            ),
        }
    }
}

#[verifier::ext_equal]
pub ghost enum ExpectedFailureV {
    Expected,
    ExpectedWithError(MoveErrorV),
    ExpectedWithCodeDeprecated(u64),
}

impl View for ExpectedFailure {
    type V = ExpectedFailureV;

    open spec fn view(&self) -> ExpectedFailureV {
        match self {
            ExpectedFailure::Expected => ExpectedFailureV::Expected,
            ExpectedFailure::ExpectedWithError(e) => ExpectedFailureV::ExpectedWithError(e@),
            ExpectedFailure::ExpectedWithCodeDeprecated(c) => ExpectedFailureV::ExpectedWithCodeDeprecated(
                *c,
            ),
        }
    }
}

/// Strict lexicographic order on byte sequences, as the module store
/// orders its keys.
pub open spec fn bytes_lt(a: Seq<u8>, b: Seq<u8>) -> bool
    decreases a.len(),
{
    if b.len() == 0 {
        false
    } else if a.len() == 0 {
        true
    } else if a[0] < b[0] {
        true
    } else if a[0] > b[0] {
        false
    } else {
        bytes_lt(a.drop_first(), b.drop_first())
    }
}

/// Strict order on module identifiers: by address, then by the
/// name's byte encoding.
pub open spec fn module_id_lt(a: ModuleIdV, b: ModuleIdV) -> bool {
    a.address < b.address || (a.address == b.address && bytes_lt(
        vstd::utf8::encode_utf8(a.name),
        vstd::utf8::encode_utf8(b.name),
    ))
}

/// The byte order never puts a sequence below itself.
pub proof fn lemma_bytes_lt_irrefl(a: Seq<u8>)
    ensures
        !bytes_lt(a, a),
    decreases a.len(),
{
    if a.len() > 0 {
        lemma_bytes_lt_irrefl(a.drop_first());
    }
}

/// The byte order never holds both ways round.
pub proof fn lemma_bytes_lt_asym(a: Seq<u8>, b: Seq<u8>)
    ensures
        !(bytes_lt(a, b) && bytes_lt(b, a)),
    decreases a.len(),
{
    if a.len() > 0 && b.len() > 0 && a[0] == b[0] {
        lemma_bytes_lt_asym(a.drop_first(), b.drop_first());
    }
}

/// A sequence below a second one stays below everything the second
/// one is not above.
pub proof fn lemma_bytes_lt_le_trans(a: Seq<u8>, b: Seq<u8>, c: Seq<u8>)
    requires
        bytes_lt(a, b),
        !bytes_lt(c, b),
    ensures
        bytes_lt(a, c),
    decreases a.len(),
{
    if b.len() == 0 {
    } else if a.len() == 0 {
        if c.len() == 0 {
            assert(bytes_lt(b, b)) by {
                lemma_bytes_lt_irrefl(b);
            }
            assert(false) by {
                assert(b.len() > 0);
            }
        }
    } else {
        if c.len() == 0 {
            assert(false);
        } else if a[0] < b[0] {
            if c[0] < b[0] {
                assert(bytes_lt(c, b));
            }
            if c[0] == b[0] {
                assert(a[0] < c[0]);
            }
        } else {
            assert(a[0] == b[0]);
            if c[0] < b[0] {
                assert(bytes_lt(c, b));
            } else if c[0] > b[0] {
                assert(a[0] < c[0]);
            } else {
                assert(!bytes_lt(c.drop_first(), b.drop_first()));
                lemma_bytes_lt_le_trans(a.drop_first(), b.drop_first(), c.drop_first());
            }
        }
    }
}

/// The module order never puts an identifier below itself.
pub proof fn lemma_module_id_lt_irrefl(a: ModuleIdV)
    ensures
        !module_id_lt(a, a),
{
    lemma_bytes_lt_irrefl(vstd::utf8::encode_utf8(a.name));
}

/// The module order never holds both ways round.
pub proof fn lemma_module_id_lt_asym(a: ModuleIdV, b: ModuleIdV)
    ensures
        !(module_id_lt(a, b) && module_id_lt(b, a)),
{
    lemma_bytes_lt_asym(vstd::utf8::encode_utf8(a.name), vstd::utf8::encode_utf8(b.name));
}

/// An identifier below a second one stays below everything the
/// second one is not above.
pub proof fn lemma_module_id_lt_le_trans(a: ModuleIdV, b: ModuleIdV, c: ModuleIdV)
    requires
        module_id_lt(a, b),
        !module_id_lt(c, b),
    ensures
        module_id_lt(a, c),
{
    if a.address == b.address && b.address == c.address {
        lemma_bytes_lt_le_trans(
            vstd::utf8::encode_utf8(a.name),
            vstd::utf8::encode_utf8(b.name),
            vstd::utf8::encode_utf8(c.name),
        );
    }
}

impl ModuleId {
    /// Whether this identifier orders strictly below the other: by
    /// address, then by the name's byte encoding.
    pub fn is_below(&self, other: &ModuleId) -> (r: bool)
        ensures
            r == module_id_lt(self@, other@),
    {
        if self.address < other.address {
            return true;
        }
        if self.address > other.address {
            return false;
        }
        let a = self.name.as_str().as_bytes();
        let b = other.name.as_str().as_bytes();
        let an = a.len();
        let bn = b.len();
        let mut i: usize = 0;
        proof {
            assert(a@.skip(0) =~= a@);
            assert(b@.skip(0) =~= b@);
        }
        while i < an && i < bn
            invariant
                self@.address == other@.address,
                a@ == vstd::utf8::encode_utf8(self@.name),
                b@ == vstd::utf8::encode_utf8(other@.name),
                an == a@.len(),
                bn == b@.len(),
                i <= an,
                i <= bn,
                bytes_lt(a@, b@) == bytes_lt(a@.skip(i as int), b@.skip(i as int)),
            decreases an - i,
        {
            proof {
                assert(a@.skip(i as int)[0] == a@[i as int]);
                assert(b@.skip(i as int)[0] == b@[i as int]);
                assert(a@.skip(i as int).drop_first() =~= a@.skip(i + 1));
                assert(b@.skip(i as int).drop_first() =~= b@.skip(i + 1));
            }
            if a[i] < b[i] {
                proof {
                    assert(a@.skip(i as int).len() > 0 && b@.skip(i as int).len() > 0);
                    assert(bytes_lt(a@.skip(i as int), b@.skip(i as int)));
                    assert(bytes_lt(a@, b@));
                    assert(module_id_lt(self@, other@));
                }
                return true;
            }
            if a[i] > b[i] {
                proof {
                    assert(a@.skip(i as int).len() > 0 && b@.skip(i as int).len() > 0);
                    assert(!bytes_lt(a@.skip(i as int), b@.skip(i as int)));
                    assert(!bytes_lt(a@, b@));
                    assert(!module_id_lt(self@, other@));
                }
                return false;
            }
            i += 1;
        }
        proof {
            assert(a@.skip(i as int).len() == an - i);
            assert(b@.skip(i as int).len() == bn - i);
            if an < bn {
                assert(bytes_lt(a@.skip(i as int), b@.skip(i as int)));
                assert(module_id_lt(self@, other@));
            } else {
                assert(i >= bn);
                assert(!bytes_lt(a@.skip(i as int), b@.skip(i as int)));
                assert(!module_id_lt(self@, other@));
            }
        }
        an < bn
    }
}

} // verus!
