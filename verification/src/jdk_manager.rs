//! Managing the local JDK store: which keys are installed, where each key's
//! directory lies, and the install flow that downloads, verifies, extracts
//! and atomically commits a JDK.
//!
//! The install flow is a state machine. The surrounding program performs one
//! filesystem or network action at a time — the action [`InstallFlow::next_action`]
//! asks for — and reports what happened through [`InstallFlow::on_event`].
//! The contracts pin the whole transition relation: the commit rename is
//! never asked for before the checksum matched, and the marker write never
//! before the commit succeeded.

use vstd::prelude::*;

use crate::archive::SLASH;
use crate::foojay::{spec_resolved_valid, ResolvedPackage};
use crate::java_version::key::{spec_parse_key, spec_render_key, VersionKey, VersionKeyView};
use crate::java_version::{spec_parse, spec_render, JavaVersion, JavaVersionParsingError};
use crate::text::push_all;

verus! {

/// The install could not be completed.
#[derive(Debug, Clone, PartialEq, Eq)]
pub struct JdkManagerError;

/// The directory a key installs under: the store root, a separator, and
/// the key's canonical name.
pub fn jdk_path(store_root: &[u8], jdk: &VersionKey) -> (r: Vec<u8>)
    ensures
        r@ =~= store_root@ + seq![SLASH] + spec_render_key(jdk@),
{
    let mut out = vstd::slice::slice_to_vec(store_root);
    out.push(SLASH);
    let name = jdk.to_bytes();
    push_all(&mut out, name.as_slice());
    out
}

/// One entry of the store directory, as the filesystem reports it: its
/// name, and whether a completed-install marker file is present in it.
#[derive(Debug, Clone, PartialEq, Eq)]
pub struct StoreEntry {
    pub name: Vec<u8>,
    pub has_marker: bool,
}

/// Ghost counterpart of [`StoreEntry`].
#[verifier::ext_equal]
pub struct StoreEntryView {
    pub name: Seq<u8>,
    pub has_marker: bool,
}

impl View for StoreEntry {
    type V = StoreEntryView;

    open spec fn view(&self) -> StoreEntryView {
        StoreEntryView { name: self.name@, has_marker: self.has_marker }
    }
}

impl DeepView for StoreEntry {
    type V = StoreEntryView;

    open spec fn deep_view(&self) -> StoreEntryView {
        self.view()
    }
}

/// The keys the store holds: entries whose name is a version key and whose
/// marker file is present. The marker is the sole proof of a completed
/// install: a directory without it is not installed, however complete it
/// looks.
pub open spec fn spec_installed_keys(entries: Seq<StoreEntryView>) -> Seq<VersionKeyView>
    decreases entries.len(),
{
    if entries.len() == 0 {
        Seq::<VersionKeyView>::empty()
    } else {
        (if entries[0].has_marker {
            match spec_parse_key(entries[0].name) {
                Option::Some(k) => seq![k],
                Option::None => Seq::<VersionKeyView>::empty(),
            }
        } else {
            Seq::<VersionKeyView>::empty()
        }) + spec_installed_keys(entries.drop_first())
    }
}

/// The installed keys among the store's entries, as executable code.
pub fn get_installed_jdks(entries: &Vec<StoreEntry>) -> (r: Vec<VersionKey>)
    ensures
        r.deep_view() =~= spec_installed_keys(entries.deep_view()),
{
    let ghost dv = entries.deep_view();
    let mut out: Vec<VersionKey> = Vec::new();
    let mut i: usize = 0;
    proof {
        assert(dv.skip(0) =~= dv);
        assert(out.deep_view() =~= Seq::<VersionKeyView>::empty());
    }
    while i < entries.len()
        invariant
            0 <= i <= entries@.len(),
            dv == entries.deep_view(),
            dv.len() == entries@.len(),
            spec_installed_keys(dv) =~= out.deep_view() + spec_installed_keys(dv.skip(i as int)),
        decreases entries@.len() - i,
    {
        proof {
            assert(dv.skip(i as int).drop_first() =~= dv.skip(i as int + 1));
            assert(dv.skip(i as int)[0] == dv[i as int]);
            assert(dv[i as int] == entries@[i as int].deep_view());
        }
        let e = &entries[i];
        let ghost pre_out = out.deep_view();
        let mut pushed = false;
        if e.has_marker {
            match VersionKey::parse(e.name.as_slice()) {
                Ok(k) => {
                    out.push(k);
                    pushed = true;
                },
                Err(_) => {},
            }
        }
        proof {
            if pushed {
                assert(out.deep_view() =~= pre_out.push(out@[out@.len() - 1]@));
            }
            assert(pre_out + spec_installed_keys(dv.skip(i as int)) =~= out.deep_view()
                + spec_installed_keys(dv.skip(i as int + 1)));
        }
        i = i + 1;
    }
    proof {
        assert(dv.skip(dv.len() as int) =~= Seq::<StoreEntryView>::empty());
    }
    out
}

/// Whether `keys` holds `key`.
pub open spec fn spec_has_key(keys: Seq<VersionKeyView>, key: VersionKeyView) -> bool {
    exists|i: int| 0 <= i < keys.len() && keys[i] == key
}

/// Whether a key is among the installed ones, as executable code. A key
/// that is not must be installed before its path can be handed out.
pub fn is_installed(installed: &Vec<VersionKey>, key: &VersionKey) -> (r: bool)
    ensures
        r == spec_has_key(installed.deep_view(), key@),
{
    let mut i: usize = 0;
    while i < installed.len()
        invariant
            0 <= i <= installed@.len(),
            forall|j: int| 0 <= j < i ==> installed.deep_view()[j] != key@,
        decreases installed@.len() - i,
    {
        proof {
            assert(installed.deep_view()[i as int] == installed@[i as int].deep_view());
        }
        if installed[i].major == key.major
            && crate::java_version::pre_eq(&installed[i].pre_release, &key.pre_release) {
            proof {
                assert(installed.deep_view()[i as int] =~= key@);
            }
            return true;
        }
        i = i + 1;
    }
    false
}

/// The full version a marker file records: nothing when the marker is
/// absent (the key is not installed), an error when its content does not
/// parse, otherwise the version.
pub fn full_version_from_marker(marker: Option<&[u8]>) -> (r: Result<
    Option<JavaVersion>,
    JavaVersionParsingError,
>)
    ensures
        match marker {
            Option::Some(content) => match r {
                Ok(Some(v)) => spec_parse(content@) == Some(v@),
                Ok(None) => false,
                Err(_) => spec_parse(content@) is None,
            },
            Option::None => r == Ok::<Option<JavaVersion>, JavaVersionParsingError>(
                Option::<JavaVersion>::None,
            ),
        },
{
    match marker {
        Option::Some(content) => match JavaVersion::parse(content) {
            Ok(v) => Ok(Some(v)),
            Err(e) => Err(e),
        },
        Option::None => Ok(None),
    }
}

/// Whether removing a key's directory must first clear the context
/// binding: exactly when the binding resolves to that directory.
pub fn must_clear_binding(binding_target: Option<&[u8]>, jdk_dir: &[u8]) -> (r: bool)
    ensures
        r == match binding_target {
            Option::Some(t) => t@ == jdk_dir@,
            Option::None => false,
        },
{
    match binding_target {
        Option::Some(t) => crate::text::bytes_eq(t, jdk_dir),
        Option::None => false,
    }
}

/// Where an install flow stands.
#[derive(Debug, Clone, Copy, PartialEq, Eq)]
pub enum InstallPhase {
    /// Step 1: any existing directory for the key is being removed.
    RemovingExisting,
    /// Step 2: a package is being resolved via the index.
    Resolving,
    /// Step 3: the archive is being streamed to a private temp file while
    /// its checksum is computed.
    Downloading,
    /// Step 4: the archive is being extracted into a private temp
    /// directory.
    Extracting,
    /// Step 5: the JDK root below the temp directory is being located and
    /// validated.
    LocatingRoot,
    /// Step 6: the validated root is being renamed to the final path — the
    /// commit point.
    Committing,
    /// Step 7: temp artifacts are cleaned and the marker file is written.
    WritingMarker,
    /// The install completed and the marker is published.
    Done,
    /// The install failed; only cleanup remains.
    Failed,
}

/// The one action the driver must perform next.
#[derive(Debug, Clone, Copy, PartialEq, Eq)]
pub enum InstallAction {
    /// Delete any existing (possibly partial) directory for the key.
    RemoveExisting,
    /// Query the package index, walking the configured distributions in
    /// priority order.
    ResolvePackage,
    /// Stream the download into a private temp file, feeding every byte
    /// through the checksum verifier.
    DownloadAndVerify,
    /// Unpack the archive into a private temp directory, asking
    /// [`crate::archive::entry_action`] about every entry.
    ExtractArchive,
    /// Locate the JDK root among the extracted entries and check for the
    /// java executable under it.
    LocateRoot,
    /// Atomically rename the validated root to the final install path.
    CommitRename,
    /// Write the full version string to the marker, via a temp file and a
    /// rename.
    WriteMarker,
    /// Best-effort removal of the temp download file.
    CleanupDownload,
    /// Best-effort removal of the temp unpack directory.
    CleanupUnpackDir,
    /// Nothing left to do: the install succeeded.
    Finish,
    /// Nothing left to do: report the failure.
    Fail,
}

/// What streaming the download produced.
#[derive(Debug, Clone, Copy, PartialEq, Eq)]
pub enum DownloadOutcome {
    /// The stream completed; the digest of the streamed bytes matched the
    /// advertised checksum, or not.
    Finished { checksum_matched: bool },
    /// The transfer itself failed.
    TransferFailed,
}

/// What the driver reports after performing an action.
#[derive(Debug, Clone, PartialEq, Eq)]
pub enum InstallEvent {
    /// The existing directory is gone (or there was none); `false` means a
    /// filesystem error.
    Removed(bool),
    /// Resolution finished, with the package or nothing.
    Resolved(Option<ResolvedPackage>),
    /// The download finished or failed.
    Downloaded(DownloadOutcome),
    /// Extraction finished; `false` means the archive was unreadable.
    Extracted(bool),
    /// Root location finished; `true` means a java executable was found
    /// under the candidate root.
    RootLocated(bool),
    /// The commit rename finished.
    Committed(bool),
    /// The marker write finished.
    MarkerWritten(bool),
    /// One cleanup action finished (best effort either way).
    CleanedUp,
}

/// Ghost counterpart of [`InstallFlow`].
#[verifier::ext_equal]
pub struct FlowState {
    pub key: VersionKey,
    pub phase: InstallPhase,
    pub resolved: Option<ResolvedPackage>,
    pub checksum_verified: bool,
    pub committed: bool,
    pub download_live: bool,
    pub unpack_live: bool,
}

/// The state an install flow starts in.
pub open spec fn spec_initial_flow(key: VersionKey) -> FlowState {
    FlowState {
        key,
        phase: InstallPhase::RemovingExisting,
        resolved: Option::<ResolvedPackage>::None,
        checksum_verified: false,
        committed: false,
        download_live: false,
        unpack_live: false,
    }
}

/// The flow invariant: what holds of every reachable state. A phase past
/// the download implies the checksum matched; the marker-writing and done
/// phases imply the commit happened; a finished flow holds no temp
/// artifact; and a resolved package is always usable.
pub open spec fn spec_flow_inv(s: FlowState) -> bool {
    &&& ((s.phase is Extracting || s.phase is LocatingRoot || s.phase is Committing || s.phase
        is WritingMarker || s.phase is Done) ==> s.checksum_verified)
    &&& ((s.phase is WritingMarker || s.phase is Done) ==> s.committed)
    &&& (s.committed ==> s.checksum_verified)
    &&& ((s.phase is Downloading || s.phase is Extracting || s.phase is LocatingRoot || s.phase
        is Committing || s.phase is WritingMarker || s.phase is Done) ==> s.resolved is Some)
    &&& (s.phase is Done ==> !s.download_live && !s.unpack_live)
    &&& (match s.resolved {
        Option::Some(p) => spec_resolved_valid(p),
        Option::None => true,
    })
}

/// The action each state asks for: the phase's own step, after any
/// outstanding cleanup.
pub open spec fn spec_flow_action(s: FlowState) -> InstallAction {
    match s.phase {
        InstallPhase::RemovingExisting => InstallAction::RemoveExisting,
        InstallPhase::Resolving => InstallAction::ResolvePackage,
        InstallPhase::Downloading => InstallAction::DownloadAndVerify,
        InstallPhase::Extracting => InstallAction::ExtractArchive,
        InstallPhase::LocatingRoot => InstallAction::LocateRoot,
        InstallPhase::Committing => InstallAction::CommitRename,
        InstallPhase::WritingMarker => if s.download_live {
            InstallAction::CleanupDownload
        } else if s.unpack_live {
            InstallAction::CleanupUnpackDir
        } else {
            InstallAction::WriteMarker
        },
        InstallPhase::Done => InstallAction::Finish,
        InstallPhase::Failed => if s.download_live {
            InstallAction::CleanupDownload
        } else if s.unpack_live {
            InstallAction::CleanupUnpackDir
        } else {
            InstallAction::Fail
        },
    }
}

/// The transition relation: how each event moves the flow on. Any event
/// that does not fit the phase fails the flow.
pub open spec fn spec_flow_step(s: FlowState, ev: InstallEvent) -> FlowState {
    match (s.phase, ev) {
        (InstallPhase::RemovingExisting, InstallEvent::Removed(true)) => FlowState {
            phase: InstallPhase::Resolving,
            ..s
        },
        (InstallPhase::Resolving, InstallEvent::Resolved(Option::Some(p))) => if !(p.archive_type
            is Unknown) {
            FlowState { phase: InstallPhase::Downloading, resolved: Some(p), ..s }
        } else {
            FlowState { phase: InstallPhase::Failed, ..s }
        },
        (InstallPhase::Downloading, InstallEvent::Downloaded(
            DownloadOutcome::Finished { checksum_matched },
        )) => if checksum_matched {
            FlowState {
                phase: InstallPhase::Extracting,
                checksum_verified: true,
                download_live: true,
                ..s
            }
        } else {
            FlowState { phase: InstallPhase::Failed, download_live: true, ..s }
        },
        (InstallPhase::Downloading, InstallEvent::Downloaded(
            DownloadOutcome::TransferFailed,
        )) => FlowState { phase: InstallPhase::Failed, download_live: true, ..s },
        (InstallPhase::Extracting, InstallEvent::Extracted(ok)) => if ok {
            FlowState { phase: InstallPhase::LocatingRoot, unpack_live: true, ..s }
        } else {
            FlowState { phase: InstallPhase::Failed, unpack_live: true, ..s }
        },
        (InstallPhase::LocatingRoot, InstallEvent::RootLocated(ok)) => if ok {
            FlowState { phase: InstallPhase::Committing, ..s }
        } else {
            FlowState { phase: InstallPhase::Failed, ..s }
        },
        (InstallPhase::Committing, InstallEvent::Committed(ok)) => if ok {
            FlowState { phase: InstallPhase::WritingMarker, committed: true, ..s }
        } else {
            FlowState { phase: InstallPhase::Failed, ..s }
        },
        (InstallPhase::WritingMarker, InstallEvent::CleanedUp) => if s.download_live {
            FlowState { download_live: false, ..s }
        } else {
            FlowState { unpack_live: false, ..s }
        },
        (InstallPhase::WritingMarker, InstallEvent::MarkerWritten(ok)) => if ok
            && !s.download_live && !s.unpack_live {
            FlowState { phase: InstallPhase::Done, ..s }
        } else {
            FlowState { phase: InstallPhase::Failed, ..s }
        },
        (InstallPhase::Failed, InstallEvent::CleanedUp) => if s.download_live {
            FlowState { download_live: false, ..s }
        } else {
            FlowState { unpack_live: false, ..s }
        },
        _ => FlowState { phase: InstallPhase::Failed, ..s },
    }
}

/// An install in progress, driven one action at a time.
pub struct InstallFlow {
    key: VersionKey,
    phase: InstallPhase,
    resolved: Option<ResolvedPackage>,
    checksum_verified: bool,
    committed: bool,
    download_live: bool,
    unpack_live: bool,
}

impl View for InstallFlow {
    type V = FlowState;

    closed spec fn view(&self) -> FlowState {
        FlowState {
            key: self.key,
            phase: self.phase,
            resolved: self.resolved,
            checksum_verified: self.checksum_verified,
            committed: self.committed,
            download_live: self.download_live,
            unpack_live: self.unpack_live,
        }
    }
}

impl InstallFlow {
    /// Begin an install for `key`: the first action removes any existing
    /// directory, so an install always overwrites.
    pub fn new(key: VersionKey) -> (r: InstallFlow)
        ensures
            r@ == spec_initial_flow(key),
            spec_flow_inv(r@),
    {
        InstallFlow {
            key,
            phase: InstallPhase::RemovingExisting,
            resolved: None,
            checksum_verified: false,
            committed: false,
            download_live: false,
            unpack_live: false,
        }
    }

    /// The key being installed.
    pub fn key(&self) -> (r: &VersionKey)
        ensures
            r == self@.key,
    {
        &self.key
    }

    /// Where the flow stands.
    pub fn phase(&self) -> (r: InstallPhase)
        ensures
            r == self@.phase,
    {
        self.phase
    }

    /// The package resolution produced, if it has.
    pub fn resolved_package(&self) -> (r: Option<&ResolvedPackage>)
        ensures
            match r {
                Option::Some(p) => self@.resolved == Some(*p),
                Option::None => self@.resolved is None,
            },
    {
        self.resolved.as_ref()
    }

    /// The one action to perform next.
    pub fn next_action(&self) -> (r: InstallAction)
        ensures
            r == spec_flow_action(self@),
    {
        match self.phase {
            InstallPhase::RemovingExisting => InstallAction::RemoveExisting,
            InstallPhase::Resolving => InstallAction::ResolvePackage,
            InstallPhase::Downloading => InstallAction::DownloadAndVerify,
            InstallPhase::Extracting => InstallAction::ExtractArchive,
            InstallPhase::LocatingRoot => InstallAction::LocateRoot,
            InstallPhase::Committing => InstallAction::CommitRename,
            InstallPhase::WritingMarker => if self.download_live {
                InstallAction::CleanupDownload
            } else if self.unpack_live {
                InstallAction::CleanupUnpackDir
            } else {
                InstallAction::WriteMarker
            },
            InstallPhase::Done => InstallAction::Finish,
            InstallPhase::Failed => if self.download_live {
                InstallAction::CleanupDownload
            } else if self.unpack_live {
                InstallAction::CleanupUnpackDir
            } else {
                InstallAction::Fail
            },
        }
    }

    /// Report what the last action produced, moving the flow on as
    /// `spec_flow_step` says.
    pub fn on_event(&mut self, ev: InstallEvent)
        ensures
            final(self)@ == spec_flow_step(old(self)@, ev),
    {
        match (self.phase, ev) {
            (InstallPhase::RemovingExisting, InstallEvent::Removed(true)) => {
                self.phase = InstallPhase::Resolving;
            },
            (InstallPhase::Resolving, InstallEvent::Resolved(Some(p))) => {
                if !matches!(p.archive_type, crate::foojay::ArchiveType::Unknown(_)) {
                    self.phase = InstallPhase::Downloading;
                    self.resolved = Some(p);
                } else {
                    self.phase = InstallPhase::Failed;
                }
            },
            (InstallPhase::Downloading, InstallEvent::Downloaded(
                DownloadOutcome::Finished { checksum_matched },
            )) => {
                self.download_live = true;
                if checksum_matched {
                    self.phase = InstallPhase::Extracting;
                    self.checksum_verified = true;
                } else {
                    self.phase = InstallPhase::Failed;
                }
            },
            (InstallPhase::Downloading, InstallEvent::Downloaded(
                DownloadOutcome::TransferFailed,
            )) => {
                self.download_live = true;
                self.phase = InstallPhase::Failed;
            },
            (InstallPhase::Extracting, InstallEvent::Extracted(ok)) => {
                self.unpack_live = true;
                if ok {
                    self.phase = InstallPhase::LocatingRoot;
                } else {
                    self.phase = InstallPhase::Failed;
                }
            },
            (InstallPhase::LocatingRoot, InstallEvent::RootLocated(ok)) => {
                if ok {
                    self.phase = InstallPhase::Committing;
                } else {
                    self.phase = InstallPhase::Failed;
                }
            },
            (InstallPhase::Committing, InstallEvent::Committed(ok)) => {
                if ok {
                    self.phase = InstallPhase::WritingMarker;
                    self.committed = true;
                } else {
                    self.phase = InstallPhase::Failed;
                }
            },
            (InstallPhase::WritingMarker, InstallEvent::CleanedUp) => {
                if self.download_live {
                    self.download_live = false;
                } else {
                    self.unpack_live = false;
                }
            },
            (InstallPhase::WritingMarker, InstallEvent::MarkerWritten(ok)) => {
                if ok && !self.download_live && !self.unpack_live {
                    self.phase = InstallPhase::Done;
                } else {
                    self.phase = InstallPhase::Failed;
                }
            },
            (InstallPhase::Failed, InstallEvent::CleanedUp) => {
                if self.download_live {
                    self.download_live = false;
                } else {
                    self.unpack_live = false;
                }
            },
            _ => {
                self.phase = InstallPhase::Failed;
            },
        }
    }

    /// What the marker file must hold: the printed full version of the
    /// resolved package, so that two installs resolving the same package
    /// publish identical markers.
    pub fn marker_bytes(&self) -> (r: Option<Vec<u8>>)
        ensures
            match r {
                Option::Some(m) => match self@.resolved {
                    Option::Some(p) => m@ =~= spec_render(p.version@),
                    Option::None => false,
                },
                Option::None => self@.resolved is None,
            },
    {
        match &self.resolved {
            Option::Some(p) => Some(p.version.to_bytes()),
            Option::None => None,
        }
    }
}

/// Every step preserves the flow invariant.
pub proof fn lemma_flow_step_preserves_inv(s: FlowState, ev: InstallEvent)
    requires
        spec_flow_inv(s),
    ensures
        spec_flow_inv(spec_flow_step(s, ev)),
{
}

/// Checksum gate: while the downloaded bytes have not verified against the
/// advertised checksum, the flow never asks for the commit rename nor for
/// the marker write — so a corrupted download can neither be renamed into
/// place nor published.
pub proof fn lemma_checksum_gates_commit(s: FlowState)
    requires
        spec_flow_inv(s),
        !s.checksum_verified,
    ensures
        spec_flow_action(s) != InstallAction::CommitRename,
        spec_flow_action(s) != InstallAction::WriteMarker,
{
}

/// The checksum gate opens only when the download finishes with a matching
/// digest: no other event verifies the checksum.
pub proof fn lemma_checksum_only_from_match(s: FlowState, ev: InstallEvent)
    requires
        !s.checksum_verified,
        spec_flow_step(s, ev).checksum_verified,
    ensures
        s.phase is Downloading,
        ev == InstallEvent::Downloaded(DownloadOutcome::Finished { checksum_matched: true }),
{
}

/// Atomic marker: the marker write is asked for only after the commit
/// rename succeeded, and the flow finishes only after the marker write
/// succeeded. Interrupted between the two, the flow has committed but the
/// marker — the sole proof of a completed install — is absent, so the key
/// reads as not installed and the next install overwrites it.
pub proof fn lemma_marker_after_commit(s: FlowState, ev: InstallEvent)
    requires
        spec_flow_inv(s),
    ensures
        spec_flow_action(s) == InstallAction::WriteMarker ==> s.committed && s.checksum_verified,
        (!(s.phase is Done) && spec_flow_step(s, ev).phase is Done) ==> s.phase
            is WritingMarker && ev == InstallEvent::MarkerWritten(true),
{
}

/// Idempotence: a finished flow leaves no temporary artifact behind, and
/// the marker it published is determined by the resolved package alone, so
/// installing the same resolution twice publishes identical markers.
pub proof fn lemma_done_is_clean(s: FlowState)
    requires
        spec_flow_inv(s),
        s.phase is Done,
    ensures
        !s.download_live,
        !s.unpack_live,
        s.committed,
        s.checksum_verified,
{
}

/// Failure is final: a failed flow only ever cleans up and reports.
pub proof fn lemma_failed_is_final(s: FlowState, ev: InstallEvent)
    requires
        s.phase is Failed,
    ensures
        spec_flow_step(s, ev).phase is Failed,
        spec_flow_action(s) == InstallAction::CleanupDownload || spec_flow_action(s)
            == InstallAction::CleanupUnpackDir || spec_flow_action(s) == InstallAction::Fail,
{
}

} // verus!
