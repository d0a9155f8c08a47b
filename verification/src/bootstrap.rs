//! Process-wide, idempotent registration of the adapter, and the smoke test
//! that proves the adapter is actually active before the system proceeds.
//!
//! The caller performs the outside steps — registering the callback table
//! with the engine, issuing the identifying pragma, switching the journal
//! mode, creating the probe table and listing the schema — and hands the
//! observed answers to the decision functions here, which say exactly when
//! startup may proceed.

use vstd::prelude::*;
use vstd::string::StringExecFns;

use crate::vfs::{spec_vfs_name, vfs_name};

verus! {

/// Why the self-check refused to proceed.
#[derive(Clone, Copy, Debug, PartialEq, Eq, Structural)]
pub enum BootstrapError {
    /// The identifying pragma did not answer with the adapter's name: some
    /// other file system is active.
    NoVfsDetected,
    /// The journal-mode setting could not be read back: the connection
    /// failed mid-check.
    JournalMode,
    /// The probe table did not come back from the schema listing.
    SelfCheck,
}

/// The registration transition: registering leaves the flag set, and the
/// call reports whether it was the one that performed the registration.
pub open spec fn init_result(registered: bool) -> (bool, bool) {
    (true, !registered)
}

/// One-time registration guard for the adapter.  The engine's registration
/// call must run exactly once per process; this records whether it has.
pub struct Bootstrap {
    registered: bool,
}

impl Bootstrap {
    /// Whether the adapter has been registered.
    pub closed spec fn spec_registered(&self) -> bool {
        self.registered
    }

    /// A fresh guard: nothing registered yet.
    pub fn new() -> (r: Self)
        ensures
            !r.spec_registered(),
    {
        Bootstrap { registered: false }
    }

    /// Mark the adapter registered.  Returns whether this call performed the
    /// registration: only on the first call may the caller run the engine's
    /// registration routine.
    pub fn init(&mut self) -> (did_register: bool)
        ensures
            (final(self).spec_registered(), did_register) == init_result(
                old(self).spec_registered(),
            ),
    {
        let did = !self.registered;
        self.registered = true;
        did
    }
}

/// Idempotent bootstrap: running the registration twice registers once.  The
/// second run performs no registration and leaves the guard exactly where
/// the first run left it; and the self-check's verdict is a function of the
/// observed answers alone, so checking the same answers again succeeds again.
pub proof fn lemma_bootstrap_idempotent(registered: bool)
    ensures
        ({
            let (s1, did1) = init_result(registered);
            let (s2, did2) = init_result(s1);
            &&& s2 == s1
            &&& !did2
            &&& !registered ==> did1
        }),
{
}

/// Whether the self-check's observations pass: the identifying pragma must
/// answer with the adapter's own name, and the probe table must appear in
/// the schema listing.
pub open spec fn self_check_passes(pragma_response: Seq<char>, tables: Seq<String>) -> bool {
    &&& pragma_response == spec_vfs_name()
    &&& exists|i: int| 0 <= i < tables.len() && (#[trigger] tables[i])@ == "test"@
}

/// Judge the full smoke test, all three observed steps: the identifying
/// pragma's answer, the journal-mode setting read back after switching to
/// write-ahead mode (`None` when that query failed), and the table names the
/// schema listed after the probe table was created.  Each step failing is
/// fatal, with its own error: a wrong pragma answer means the adapter is not
/// active, a missing journal-mode answer means the connection failed
/// mid-check, a missing probe table means the adapter cannot serve storage.
pub fn self_check(
    pragma_response: &String,
    journal_mode: &Option<String>,
    tables: &Vec<String>,
) -> (r: Result<(), BootstrapError>)
    ensures
        r is Ok <==> self_check_passes(pragma_response@, tables@) && journal_mode is Some,
        pragma_response@ != spec_vfs_name() ==> r == Err::<(), BootstrapError>(
            BootstrapError::NoVfsDetected,
        ),
        pragma_response@ == spec_vfs_name() && journal_mode is None ==> r == Err::<
            (),
            BootstrapError,
        >(BootstrapError::JournalMode),
        pragma_response@ == spec_vfs_name() && journal_mode is Some && !(exists|i: int|
            0 <= i < tables@.len() && (#[trigger] tables@[i])@ == "test"@) ==> r == Err::<
            (),
            BootstrapError,
        >(BootstrapError::SelfCheck),
{
    let own = String::from_str(vfs_name());
    if !pragma_response.eq(&own) {
        return Err(BootstrapError::NoVfsDetected);
    }
    if journal_mode.is_none() {
        return Err(BootstrapError::JournalMode);
    }
    pragma_setup(pragma_response, tables)
}

/// Judge the smoke test's observations: the answer of the identifying
/// pragma, and the table names listed by the schema after the probe table
/// was created.  A wrong pragma answer means the adapter is not active; a
/// missing probe table means it cannot serve storage.  Either is fatal for
/// startup.
pub fn pragma_setup(pragma_response: &String, tables: &Vec<String>) -> (r: Result<
    (),
    BootstrapError,
>)
    ensures
        r is Ok <==> self_check_passes(pragma_response@, tables@),
        pragma_response@ != spec_vfs_name() ==> r == Err::<(), BootstrapError>(
            BootstrapError::NoVfsDetected,
        ),
        pragma_response@ == spec_vfs_name() && !(exists|i: int|
            0 <= i < tables@.len() && (#[trigger] tables@[i])@ == "test"@) ==> r == Err::<
            (),
            BootstrapError,
        >(BootstrapError::SelfCheck),
{
    let own = String::from_str(vfs_name());
    if !pragma_response.eq(&own) {
        return Err(BootstrapError::NoVfsDetected);
    }
    let probe = String::from_str("test");
    let mut i: usize = 0;
    while i < tables.len()
        invariant
            i <= tables@.len(),
            pragma_response@ == spec_vfs_name(),
            probe@ == "test"@,
            forall|j: int| 0 <= j < i ==> (#[trigger] tables@[j])@ != "test"@,
        decreases tables@.len() - i,
    {
        if tables[i].eq(&probe) {
            proof {
                assert(pragma_response@ == spec_vfs_name());
                assert((tables@[i as int])@ == "test"@);
                assert(self_check_passes(pragma_response@, tables@));
            }
            return Ok(());
        }
        i += 1;
    }
    Err(BootstrapError::SelfCheck)
}

} // verus!
