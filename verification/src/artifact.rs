//! The artifact store's coordination: the process-wide set of package
//! versions whose download or extraction is in flight, and the step
//! function of the materialise protocol that turns a package version into
//! an extracted source tree on disk.
//!
//! The protocol is a state machine: the library decides, the driver
//! performs the filesystem and subprocess work each action names and
//! reports what it observed.  Exactly one actor creates the extracted
//! directory of a package version; every other actor waits, in a bounded
//! polling loop, for the directory to appear.

use vstd::prelude::*;
use vstd::string::StrSliceExecFns;

use crate::text::str_eq;
use crate::text::views_of;

verus! {

/// The set of `name-version` keys whose download or extraction is in
/// flight.  The driver guards it with a short-held mutex; inserting
/// succeeds exactly when no equal key is present, and only the inserter
/// performs the work.
pub struct InFlightSet {
    keys: Vec<String>,
}

impl InFlightSet {
    /// The keys currently in flight.
    pub closed spec fn spec_keys(&self) -> Seq<Seq<char>> {
        views_of(self.keys@)
    }

    /// A key is present.
    pub open spec fn spec_contains(&self, key: Seq<char>) -> bool {
        self.spec_keys().contains(key)
    }

    /// No key is present twice.
    pub open spec fn wf(&self) -> bool {
        forall|i: int, j: int|
            0 <= i < j < self.spec_keys().len() ==> #[trigger] self.spec_keys()[i]
                != #[trigger] self.spec_keys()[j]
    }

    pub fn new() -> (r: Self)
        ensures
            r.wf(),
            r.spec_keys() == Seq::<Seq<char>>::empty(),
    {
        let r = InFlightSet { keys: Vec::new() };
        proof {
            assert(r.spec_keys() =~= Seq::<Seq<char>>::empty());
        }
        r
    }

    fn position_of(&self, key: &str) -> (r: Option<usize>)
        ensures
            r matches Some(i) ==> (0 <= i < self.spec_keys().len() && self.spec_keys()[i as int]
                == key@),
            r is None ==> !self.spec_contains(key@),
    {
        let mut i: usize = 0;
        while i < self.keys.len()
            invariant
                0 <= i <= self.keys@.len(),
                forall|j: int| 0 <= j < i ==> #[trigger] self.keys@[j]@ != key@,
            decreases self.keys@.len() - i,
        {
            if str_eq(self.keys[i].as_str(), key) {
                return Some(i);
            }
            i = i + 1;
        }
        proof {
            assert(forall|j: int|
                0 <= j < self.spec_keys().len() ==> #[trigger] self.spec_keys()[j] != key@);
        }
        None
    }

    /// Enter a key into the set.  Succeeds exactly when no equal key is
    /// present; the caller that succeeds is the one that must perform the
    /// download and extraction.
    pub fn try_acquire(&mut self, key: &str) -> (r: bool)
        requires
            old(self).wf(),
        ensures
            final(self).wf(),
            r == !old(self).spec_contains(key@),
            r ==> final(self).spec_keys() == old(self).spec_keys().push(key@),
            !r ==> final(self).spec_keys() == old(self).spec_keys(),
    {
        match self.position_of(key) {
            Some(_) => false,
            None => {
                self.keys.push(key.to_owned());
                proof {
                    assert(self.spec_keys() =~= old(self).spec_keys().push(key@));
                }
                true
            },
        }
    }

    /// Remove a key from the set, on return from the materialise protocol,
    /// whether it succeeded or failed.
    pub fn release(&mut self, key: &str)
        requires
            old(self).wf(),
        ensures
            final(self).wf(),
            !final(self).spec_contains(key@),
            forall|k: Seq<char>|
                k != key@ ==> (#[trigger] final(self).spec_contains(k) == old(self).spec_contains(
                    k,
                )),
    {
        match self.position_of(key) {
            Some(i) => {
                let ghost oldkeys = self.spec_keys();
                self.keys.remove(i);
                proof {
                    assert(self.spec_keys() =~= oldkeys.remove(i as int));
                    assert forall|k: Seq<char>| k != key@ implies (#[trigger] self.spec_contains(k)
                        == oldkeys.contains(k)) by {
                        if oldkeys.contains(k) {
                            let t = choose|t: int| 0 <= t < oldkeys.len() && oldkeys[t] == k;
                            if t < i {
                                assert(self.spec_keys()[t] == k);
                            } else {
                                assert(t != i);
                                assert(self.spec_keys()[t - 1] == k);
                            }
                        } else {
                            if self.spec_contains(k) {
                                let t = choose|t: int|
                                    0 <= t < self.spec_keys().len() && self.spec_keys()[t] == k;
                                if t < i {
                                    assert(oldkeys[t] == k);
                                } else {
                                    assert(oldkeys[t + 1] == k);
                                }
                            }
                        }
                    }
                    assert forall|t: int|
                        0 <= t < self.spec_keys().len() implies #[trigger] self.spec_keys()[t]
                        != key@ by {
                        if t < i {
                            assert(oldkeys[t] == self.spec_keys()[t]);
                        } else {
                            assert(oldkeys[t + 1] == self.spec_keys()[t]);
                        }
                    }
                }
            },
            None => {},
        }
    }
}

/// Why materialising a package version failed.
#[derive(Debug, Clone, Copy, PartialEq, Eq)]
pub enum FetchError {
    /// The archive could not be downloaded, or its directory not created.
    DownloadFailure,
    /// The downloaded archive was zero bytes long.
    EmptyDownload,
    /// Extraction ran but the expected directory did not appear.
    ExtractFailed,
    /// Another actor held the package and its directory never appeared.
    WaitTimeout,
}

/// Where the materialise protocol stands.
#[derive(Debug, Clone, Copy, PartialEq, Eq)]
pub enum FetchState {
    /// Asking whether the extracted directory already exists.
    CheckingDir,
    /// Asking for the per-package lock.
    Locking,
    /// Another actor is working; polling for the directory.
    Waiting { polls_left: u8 },
    /// Holding the lock; asking whether the archive is already on disk.
    CheckingArchive,
    /// Holding the lock; creating the download directory.
    CreatingDir,
    /// Holding the lock; downloading the archive.
    Downloading,
    /// Holding the lock; extracting the archive.
    Extracting,
    /// Holding the lock; confirming the extracted directory appeared.
    Verifying,
    /// The protocol has ended.
    Finished,
}

/// What the driver observed while performing the last action.
#[derive(Debug, Clone, Copy)]
pub enum FetchEvent {
    /// Whether the extracted directory exists and is a directory.
    DirPresent(bool),
    /// Whether the per-package key was entered into the in-flight set.
    LockTry(bool),
    /// Whether the archive file exists.
    ArchivePresent(bool),
    /// Whether the download directory could be created.
    DirCreated(bool),
    /// The size of the downloaded archive, or `None` when the download
    /// command failed.
    Downloaded(Option<u64>),
    /// Whether the extraction command exited successfully.
    Extracted(bool),
}

/// What the driver must do next.
#[derive(Debug, Clone, PartialEq, Eq)]
pub enum FetchAction {
    /// Check whether the extracted directory exists; report `DirPresent`.
    CheckExtractDir,
    /// Try to enter the key into the in-flight set; report `LockTry`.
    TryLock,
    /// Sleep one poll interval, then check the directory; report
    /// `DirPresent`.
    SleepThenCheckDir,
    /// Check whether the archive file exists; report `ArchivePresent`.
    CheckArchive,
    /// Create the download directory; report `DirCreated`.
    CreateDownloadDir,
    /// Download the archive; report `Downloaded` with its size.
    RunDownload,
    /// Extract the archive in the download directory; report `Extracted`.
    RunExtract,
    /// The extracted directory is ready: return it, releasing the lock
    /// first when `release_lock` says so.
    Succeed { release_lock: bool },
    /// Materialising failed: report the error, releasing the lock first
    /// when `release_lock` says so.
    Fail { error: FetchError, release_lock: bool },
    /// Nothing further; the protocol had already ended.
    Stop,
}

/// How many times a waiting actor polls for the directory before giving
/// up; at half a second apiece this is the twenty-second wait of the
/// store.
pub const WAIT_POLLS: u8 = 40;

/// The state in which the materialise protocol starts, and the first
/// action the driver must perform.
pub open spec fn spec_fetch_start() -> (FetchState, FetchAction) {
    (FetchState::CheckingDir, FetchAction::CheckExtractDir)
}

/// One step of the materialise protocol.
pub open spec fn spec_fetch_step(s: FetchState, e: FetchEvent) -> (FetchState, FetchAction) {
    match (s, e) {
        (FetchState::CheckingDir, FetchEvent::DirPresent(true)) => (
            FetchState::Finished,
            FetchAction::Succeed { release_lock: false },
        ),
        (FetchState::CheckingDir, FetchEvent::DirPresent(false)) => (
            FetchState::Locking,
            FetchAction::TryLock,
        ),
        (FetchState::Locking, FetchEvent::LockTry(true)) => (
            FetchState::CheckingArchive,
            FetchAction::CheckArchive,
        ),
        (FetchState::Locking, FetchEvent::LockTry(false)) => (
            FetchState::Waiting { polls_left: WAIT_POLLS },
            FetchAction::CheckExtractDir,
        ),
        (FetchState::Waiting { polls_left }, FetchEvent::DirPresent(true)) => (
            FetchState::Finished,
            FetchAction::Succeed { release_lock: false },
        ),
        (FetchState::Waiting { polls_left }, FetchEvent::DirPresent(false)) => if polls_left > 0 {
            (FetchState::Waiting { polls_left: (polls_left - 1) as u8 }, FetchAction::SleepThenCheckDir)
        } else {
            (
                FetchState::Finished,
                FetchAction::Fail { error: FetchError::WaitTimeout, release_lock: false },
            )
        },
        (FetchState::CheckingArchive, FetchEvent::ArchivePresent(true)) => (
            FetchState::Extracting,
            FetchAction::RunExtract,
        ),
        (FetchState::CheckingArchive, FetchEvent::ArchivePresent(false)) => (
            FetchState::CreatingDir,
            FetchAction::CreateDownloadDir,
        ),
        (FetchState::CreatingDir, FetchEvent::DirCreated(true)) => (
            FetchState::Downloading,
            FetchAction::RunDownload,
        ),
        (FetchState::CreatingDir, FetchEvent::DirCreated(false)) => (
            FetchState::Finished,
            FetchAction::Fail { error: FetchError::DownloadFailure, release_lock: true },
        ),
        (FetchState::Downloading, FetchEvent::Downloaded(Option::None)) => (
            FetchState::Finished,
            FetchAction::Fail { error: FetchError::DownloadFailure, release_lock: true },
        ),
        (FetchState::Downloading, FetchEvent::Downloaded(Option::Some(size))) => if size == 0 {
            (
                FetchState::Finished,
                FetchAction::Fail { error: FetchError::EmptyDownload, release_lock: true },
            )
        } else {
            (FetchState::Extracting, FetchAction::RunExtract)
        },
        (FetchState::Extracting, FetchEvent::Extracted(true)) => (
            FetchState::Verifying,
            FetchAction::CheckExtractDir,
        ),
        (FetchState::Extracting, FetchEvent::Extracted(false)) => (
            FetchState::Finished,
            FetchAction::Fail { error: FetchError::ExtractFailed, release_lock: true },
        ),
        (FetchState::Verifying, FetchEvent::DirPresent(true)) => (
            FetchState::Finished,
            FetchAction::Succeed { release_lock: true },
        ),
        (FetchState::Verifying, FetchEvent::DirPresent(false)) => (
            FetchState::Finished,
            FetchAction::Fail { error: FetchError::ExtractFailed, release_lock: true },
        ),
        _ => (FetchState::Finished, FetchAction::Stop),
    }
}

/// Begin materialising one package version.
pub fn fetch_start() -> (r: (FetchState, FetchAction))
    ensures
        r == spec_fetch_start(),
{
    (FetchState::CheckingDir, FetchAction::CheckExtractDir)
}

/// Advance the materialise protocol by one observation.
pub fn fetch_step(s: FetchState, e: FetchEvent) -> (r: (FetchState, FetchAction))
    ensures
        r == spec_fetch_step(s, e),
{
    match (s, e) {
        (FetchState::CheckingDir, FetchEvent::DirPresent(true)) => (
            FetchState::Finished,
            FetchAction::Succeed { release_lock: false },
        ),
        (FetchState::CheckingDir, FetchEvent::DirPresent(false)) => (
            FetchState::Locking,
            FetchAction::TryLock,
        ),
        (FetchState::Locking, FetchEvent::LockTry(true)) => (
            FetchState::CheckingArchive,
            FetchAction::CheckArchive,
        ),
        (FetchState::Locking, FetchEvent::LockTry(false)) => (
            FetchState::Waiting { polls_left: WAIT_POLLS },
            FetchAction::CheckExtractDir,
        ),
        (FetchState::Waiting { polls_left: _ }, FetchEvent::DirPresent(true)) => (
            FetchState::Finished,
            FetchAction::Succeed { release_lock: false },
        ),
        (FetchState::Waiting { polls_left }, FetchEvent::DirPresent(false)) => {
            if polls_left > 0 {
                (
                    FetchState::Waiting { polls_left: polls_left - 1 },
                    FetchAction::SleepThenCheckDir,
                )
            } else {
                (
                    FetchState::Finished,
                    FetchAction::Fail { error: FetchError::WaitTimeout, release_lock: false },
                )
            }
        },
        (FetchState::CheckingArchive, FetchEvent::ArchivePresent(true)) => (
            FetchState::Extracting,
            FetchAction::RunExtract,
        ),
        (FetchState::CheckingArchive, FetchEvent::ArchivePresent(false)) => (
            FetchState::CreatingDir,
            FetchAction::CreateDownloadDir,
        ),
        (FetchState::CreatingDir, FetchEvent::DirCreated(true)) => (
            FetchState::Downloading,
            FetchAction::RunDownload,
        ),
        (FetchState::CreatingDir, FetchEvent::DirCreated(false)) => (
            FetchState::Finished,
            FetchAction::Fail { error: FetchError::DownloadFailure, release_lock: true },
        ),
        (FetchState::Downloading, FetchEvent::Downloaded(Option::None)) => (
            FetchState::Finished,
            FetchAction::Fail { error: FetchError::DownloadFailure, release_lock: true },
        ),
        (FetchState::Downloading, FetchEvent::Downloaded(Option::Some(size))) => {
            if size == 0 {
                (
                    FetchState::Finished,
                    FetchAction::Fail { error: FetchError::EmptyDownload, release_lock: true },
                )
            } else {
                (FetchState::Extracting, FetchAction::RunExtract)
            }
        },
        (FetchState::Extracting, FetchEvent::Extracted(true)) => (
            FetchState::Verifying,
            FetchAction::CheckExtractDir,
        ),
        (FetchState::Extracting, FetchEvent::Extracted(false)) => (
            FetchState::Finished,
            FetchAction::Fail { error: FetchError::ExtractFailed, release_lock: true },
        ),
        (FetchState::Verifying, FetchEvent::DirPresent(true)) => (
            FetchState::Finished,
            FetchAction::Succeed { release_lock: true },
        ),
        (FetchState::Verifying, FetchEvent::DirPresent(false)) => (
            FetchState::Finished,
            FetchAction::Fail { error: FetchError::ExtractFailed, release_lock: true },
        ),
        _ => (FetchState::Finished, FetchAction::Stop),
    }
}

/// The states in which the protocol holds the per-package lock.
pub open spec fn holds_lock(s: FetchState) -> bool {
    match s {
        FetchState::CheckingArchive => true,
        FetchState::CreatingDir => true,
        FetchState::Downloading => true,
        FetchState::Extracting => true,
        FetchState::Verifying => true,
        _ => false,
    }
}

/// The events a driver that follows the actions can report in a state.
pub open spec fn event_fits(s: FetchState, e: FetchEvent) -> bool {
    match (s, e) {
        (FetchState::CheckingDir, FetchEvent::DirPresent(_)) => true,
        (FetchState::Locking, FetchEvent::LockTry(_)) => true,
        (FetchState::Waiting { .. }, FetchEvent::DirPresent(_)) => true,
        (FetchState::CheckingArchive, FetchEvent::ArchivePresent(_)) => true,
        (FetchState::CreatingDir, FetchEvent::DirCreated(_)) => true,
        (FetchState::Downloading, FetchEvent::Downloaded(_)) => true,
        (FetchState::Extracting, FetchEvent::Extracted(_)) => true,
        (FetchState::Verifying, FetchEvent::DirPresent(_)) => true,
        _ => false,
    }
}

/// The action releases the per-package lock.
pub open spec fn action_releases(a: FetchAction) -> bool {
    match a {
        FetchAction::Succeed { release_lock } => release_lock,
        FetchAction::Fail { release_lock, .. } => release_lock,
        _ => false,
    }
}

/// Lock discipline of the materialise protocol: a step taken while the
/// lock is held either keeps holding it or releases it as it ends; a step
/// taken without the lock acquires it only through a successful `TryLock`
/// and never releases it; and the protocol ends only through `Succeed`,
/// `Fail` or `Stop`.  So the lock is never leaked and never released
/// twice.
pub proof fn lemma_lock_discipline(s: FetchState, e: FetchEvent)
    requires
        event_fits(s, e),
    ensures
        holds_lock(s) ==> (holds_lock(spec_fetch_step(s, e).0) || action_releases(
            spec_fetch_step(s, e).1,
        )),
        holds_lock(s) ==> !(holds_lock(spec_fetch_step(s, e).0) && action_releases(
            spec_fetch_step(s, e).1,
        )),
        !holds_lock(s) ==> !action_releases(spec_fetch_step(s, e).1),
        !holds_lock(s) && holds_lock(spec_fetch_step(s, e).0) ==> (s == FetchState::Locking && e
            == (FetchEvent::LockTry(true))),
{
}

} // verus!
