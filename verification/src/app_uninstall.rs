//! What uninstalling one application bundle would meet.
//!
//! A preview gathers the evidence, the protections and the refusals of an uninstall. It
//! performs no effect and authorizes none.

use crate::app_inventory::{RunningObservation, RunningView};
use crate::bundle::{IoFailure, IoKind};
use crate::candidates;
use crate::error::Error;
use crate::journal::NativeTime;
use crate::model::{Host, ResourceKind};
use crate::path;
use crate::running;
use crate::running::RunningPath;
use crate::text;
use crate::unicode;
use crate::version;
use vstd::prelude::*;
use vstd::string::*;
use vstd::utf8;

verus! {

/// Execution state published by every preview.
pub const EXECUTION_DEFERRED: &'static str = "deferred_contract";

/// Recovery statement published by every preview.
pub const RECOVERY_NOTE: &'static str = "the future execution slice moves the bundle to the user Trash; recovery is Finder 'Put Back', with no programmatic restore";

/// Why a bundle is not uninstalled.
#[derive(Clone, Copy, Debug, PartialEq, Eq, Structural)]
pub enum UninstallRefusalCode {
    NotFound,
    NotDirectory,
    NotAppBundle,
    SymlinkBundle,
    MissingInfoPlist,
    InfoPlistNotRegularFile,
    SystemLocation,
    NonLocalVolume,
    Running,
    UnsupportedPlatform,
    Internal,
}

impl UninstallRefusalCode {
    pub open spec fn name(self) -> Seq<char> {
        match self {
            UninstallRefusalCode::NotFound => "not_found"@,
            UninstallRefusalCode::NotDirectory => "not_directory"@,
            UninstallRefusalCode::NotAppBundle => "not_app_bundle"@,
            UninstallRefusalCode::SymlinkBundle => "symlink_bundle"@,
            UninstallRefusalCode::MissingInfoPlist => "missing_info_plist"@,
            UninstallRefusalCode::InfoPlistNotRegularFile => "info_plist_not_regular_file"@,
            UninstallRefusalCode::SystemLocation => "system_location"@,
            UninstallRefusalCode::NonLocalVolume => "non_local_volume"@,
            UninstallRefusalCode::Running => "running"@,
            UninstallRefusalCode::UnsupportedPlatform => "unsupported_platform"@,
            UninstallRefusalCode::Internal => "internal_error"@,
        }
    }

    pub fn as_str(self) -> (name: &'static str)
        ensures
            name@ == self.name(),
    {
        match self {
            UninstallRefusalCode::NotFound => "not_found",
            UninstallRefusalCode::NotDirectory => "not_directory",
            UninstallRefusalCode::NotAppBundle => "not_app_bundle",
            UninstallRefusalCode::SymlinkBundle => "symlink_bundle",
            UninstallRefusalCode::MissingInfoPlist => "missing_info_plist",
            UninstallRefusalCode::InfoPlistNotRegularFile => "info_plist_not_regular_file",
            UninstallRefusalCode::SystemLocation => "system_location",
            UninstallRefusalCode::NonLocalVolume => "non_local_volume",
            UninstallRefusalCode::Running => "running",
            UninstallRefusalCode::UnsupportedPlatform => "unsupported_platform",
            UninstallRefusalCode::Internal => "internal_error",
        }
    }
}

/// One reason why a bundle is not uninstalled.
#[derive(Debug)]
pub struct UninstallRefusal {
    pub code: UninstallRefusalCode,
    pub message: String,
    pub os_code: Option<i32>,
}

/// The mathematical value of an [`UninstallRefusal`].
#[verifier::ext_equal]
pub struct RefusalView {
    pub code: UninstallRefusalCode,
    pub message: Seq<char>,
    pub os_code: Option<i32>,
}

impl View for UninstallRefusal {
    type V = RefusalView;

    open spec fn view(&self) -> RefusalView {
        RefusalView { code: self.code, message: self.message@, os_code: self.os_code }
    }
}

pub open spec fn refusal_views(list: Seq<UninstallRefusal>) -> Seq<RefusalView> {
    Seq::new(list.len(), |i: int| list[i]@)
}

/// A refusal that no system call is behind.
pub open spec fn refused(code: UninstallRefusalCode, message: Seq<char>) -> RefusalView {
    RefusalView { code, message, os_code: None }
}

/// A refusal over a system call that failed.
pub open spec fn failed(
    code: UninstallRefusalCode,
    context: Seq<char>,
    failure: IoFailure,
) -> RefusalView {
    RefusalView { code, message: context + failure.text@, os_code: failure.os_code }
}

impl UninstallRefusal {
    fn new(code: UninstallRefusalCode, message: &str) -> (refusal: UninstallRefusal)
        ensures
            refusal@ == refused(code, message@),
    {
        UninstallRefusal { code, message: message.to_owned(), os_code: None }
    }

    fn os(code: UninstallRefusalCode, context: &str, failure: &IoFailure) -> (refusal:
        UninstallRefusal)
        ensures
            refusal@ == failed(code, context@, *failure),
    {
        UninstallRefusal {
            code,
            message: text::concat(context, failure.text.as_str()),
            os_code: failure.os_code,
        }
    }
}

/// Bundle directory identity captured without following links.
#[derive(Clone, Copy, Debug, PartialEq, Eq, Structural)]
pub struct BundleIdentity {
    pub device: u64,
    pub inode: u64,
    pub logical_bytes: u64,
    pub modified: NativeTime,
}

/// Read-only preview of uninstalling one explicit bundle.
#[derive(Debug)]
pub struct UninstallPreview {
    pub bundle_path: Vec<u8>,
    pub display_name: String,
    pub identity: Option<BundleIdentity>,
    /// Regular files observed directly under `Contents/MacOS`, links not followed.
    pub executables_observed: Option<usize>,
    pub running: RunningObservation,
    pub protections: Vec<&'static str>,
    pub recovery: &'static str,
    pub execution: &'static str,
    pub refusals: Vec<UninstallRefusal>,
}

/// The mathematical value of an [`UninstallPreview`].
#[verifier::ext_equal]
pub struct PreviewView {
    pub path: Seq<u8>,
    pub name: Seq<char>,
    pub identity: Option<BundleIdentity>,
    pub executables: Option<nat>,
    pub running: RunningView,
    pub protections: Seq<Seq<char>>,
    pub recovery: Seq<char>,
    pub execution: Seq<char>,
    pub refusals: Seq<RefusalView>,
}

impl View for UninstallPreview {
    type V = PreviewView;

    open spec fn view(&self) -> PreviewView {
        PreviewView {
            path: self.bundle_path@,
            name: self.display_name@,
            identity: self.identity,
            executables: match self.executables_observed {
                Some(count) => Some(count as nat),
                None => None,
            },
            running: self.running@,
            protections: crate::order::literals(self.protections@),
            recovery: self.recovery@,
            execution: self.execution@,
            refusals: refusal_views(self.refusals@),
        }
    }
}

impl UninstallPreview {
    /// A preview never authorizes execution, so that callers cannot mistake a clean one for
    /// approval.
    pub fn can_execute(&self) -> (answer: bool)
        ensures
            !answer,
    {
        false
    }

    fn refuse(&mut self, refusal: UninstallRefusal)
        ensures
            final(self)@ == old(self)@.with(refusal@),
    {
        let ghost before = refusal_views(self.refusals@);
        let ghost added = refusal@;
        self.refusals.push(refusal);
        assert(refusal_views(self.refusals@) =~= before.push(added));
    }
}

impl PreviewView {
    /// The preview with one more refusal.
    pub open spec fn with(self, refusal: RefusalView) -> PreviewView {
        PreviewView { refusals: self.refusals.push(refusal), ..self }
    }

    /// The preview with what was observed of running executables.
    pub open spec fn seen_running(self, running: RunningView) -> PreviewView {
        PreviewView { running, ..self }
    }
}

/// What every uninstall leaves alone.
pub open spec fn protection_texts() -> Seq<Seq<char>> {
    seq![
        "related data, preferences, caches and credentials are never touched by this contract"@,
        "other copies of the same bundle ID are independent and never touched"@,
        "a running bundle is refused, never signaled or terminated"@,
        "no permanent deletion fallback exists after any failed Trash operation"@,
        "system locations (/System) are refused regardless of permissions"@,
    ]
}

fn protections() -> (list: Vec<&'static str>)
    ensures
        crate::order::literals(list@) == protection_texts(),
{
    let mut list: Vec<&'static str> = Vec::new();
    list.push("related data, preferences, caches and credentials are never touched by this contract");
    list.push("other copies of the same bundle ID are independent and never touched");
    list.push("a running bundle is refused, never signaled or terminated");
    list.push("no permanent deletion fallback exists after any failed Trash operation");
    list.push("system locations (/System) are refused regardless of permissions");
    assert(crate::order::literals(list@) =~= protection_texts());
    list
}

/// The name under which a bundle is shown: its file name without the extension.
pub open spec fn shown_name(place: Seq<u8>) -> Seq<char> {
    match path::file_name(place) {
        None => "(unknown)"@,
        Some(name) => match unicode::utf8_text(path::stem(name)) {
            Some(text) => text,
            None => "(unknown)"@,
        },
    }
}

/// The preview of a bundle of which nothing is known yet.
pub open spec fn base_view(place: Seq<u8>) -> PreviewView {
    PreviewView {
        path: place,
        name: shown_name(place),
        identity: None,
        executables: None,
        running: RunningView::NotChecked,
        protections: protection_texts(),
        recovery: RECOVERY_NOTE@,
        execution: EXECUTION_DEFERRED@,
        refusals: Seq::empty(),
    }
}

fn base_preview(bundle: &[u8]) -> (preview: UninstallPreview)
    ensures
        preview@ == base_view(bundle@),
{
    let display_name: String = match path::name_of(bundle) {
        None => "(unknown)".to_owned(),
        Some(name) => {
            let stem = path::stem_of(name.as_slice());
            match unicode::from_utf8(stem.as_slice()) {
                Some(text) => text,
                None => "(unknown)".to_owned(),
            }
        },
    };
    let refusals: Vec<UninstallRefusal> = Vec::new();
    assert(refusal_views(refusals@) =~= Seq::empty());
    UninstallPreview {
        bundle_path: text::copy_bytes(bundle),
        display_name,
        identity: None,
        executables_observed: None,
        running: RunningObservation::NotChecked,
        protections: protections(),
        recovery: RECOVERY_NOTE,
        execution: EXECUTION_DEFERRED,
        refusals,
    }
}

/// What was seen at the path of a bundle, without following links.
#[derive(Debug)]
pub struct TargetLook {
    pub kind: ResourceKind,
    pub device: u64,
    pub inode: u64,
    pub logical_bytes: u64,
    /// Missing where the file system keeps no such time.
    pub modified: Option<NativeTime>,
}

/// One entry of `Contents/MacOS`.
#[derive(Debug)]
pub enum MacosEntry {
    /// A regular file, with the path that it resolves to, if it does.
    File { resolved: Option<Vec<u8>> },
    /// Something that is not a regular file.
    Other,
    /// An entry that could not be read.
    Unreadable(IoFailure),
    /// An entry of which it could not be said what it is.
    UnknownKind(IoFailure),
}

/// What was seen of the executables of a bundle and of the running processes.
#[derive(Debug)]
pub struct ExecutablesLook {
    pub entries: Result<Vec<MacosEntry>, IoFailure>,
    pub running: Result<Vec<RunningPath>, Error>,
}

/// The first entry that could not be looked at.
pub open spec fn first_trouble(entries: Seq<MacosEntry>) -> Option<MacosEntry>
    decreases entries.len(),
{
    if entries.len() == 0 {
        None
    } else if entries[0] is Unreadable || entries[0] is UnknownKind {
        Some(entries[0])
    } else {
        first_trouble(entries.drop_first())
    }
}

/// The regular files among the entries, each with the path that it resolves to.
pub open spec fn files(entries: Seq<MacosEntry>) -> Seq<Option<Seq<u8>>>
    decreases entries.len(),
{
    if entries.len() == 0 {
        Seq::empty()
    } else {
        let before = files(entries.drop_last());
        match entries.last() {
            MacosEntry::File { resolved } => before.push(
                match resolved {
                    Some(place) => Some(place@),
                    None => None,
                },
            ),
            _ => before,
        }
    }
}

/// Whether some file could not be resolved.
pub open spec fn has_unresolved(found: Seq<Option<Seq<u8>>>) -> bool {
    exists|i: int| 0 <= i < found.len() && (#[trigger] found[i]) is None
}

/// A sorted list of numbers with one more, unless it is there.
pub open spec fn with_pid(list: Seq<u32>, pid: u32) -> Seq<u32>
    decreases list.len(),
{
    if list.len() == 0 || list.last() < pid {
        list.push(pid)
    } else if list.last() == pid {
        list
    } else {
        with_pid(list.drop_last(), pid).push(list.last())
    }
}

pub open spec fn with_pids(list: Seq<u32>, more: Seq<u32>) -> Seq<u32>
    decreases more.len(),
{
    if more.len() == 0 {
        list
    } else {
        with_pid(with_pids(list, more.drop_last()), more.last())
    }
}

/// The processes of the files that resolved, sorted and each once.
pub open spec fn pids_of_files(
    found: Seq<Option<Seq<u8>>>,
    running: Seq<RunningPath>,
) -> Seq<u32>
    decreases found.len(),
{
    if found.len() == 0 {
        Seq::empty()
    } else {
        let before = pids_of_files(found.drop_last(), running);
        match found.last() {
            Some(place) => with_pids(before, running::listed_pids(running, place)),
            None => before,
        }
    }
}

/// What is said of a bundle whose executables were looked at. Anything but a proven absence
/// is no "not running".
pub open spec fn bundle_observation(look: ExecutablesLook) -> RunningView {
    match look.entries {
        Err(failure) => if failure.kind == IoKind::NotFound {
            RunningView::NotAttributable("no Contents/MacOS directory"@)
        } else {
            RunningView::Unknown
        },
        Ok(entries) => {
            let found = files(entries@);
            if first_trouble(entries@) is Some {
                RunningView::Unknown
            } else if found.len() == 0 {
                RunningView::NotAttributable("no regular executable observed"@)
            } else {
                match look.running {
                    Err(_) => RunningView::Unknown,
                    Ok(running) => if has_unresolved(found) {
                        RunningView::NotAttributable("executable path cannot be resolved"@)
                    } else if pids_of_files(found, running@).len() == 0 {
                        RunningView::NotRunning
                    } else {
                        RunningView::Running(pids_of_files(found, running@))
                    },
                }
            }
        },
    }
}

proof fn lemma_with_pid_at(list: Seq<u32>, pid: u32, at: int)
    requires
        0 <= at <= list.len(),
        forall|i: int| at <= i < list.len() ==> #[trigger] list[i] > pid,
        at == 0 || list[at - 1] <= pid,
    ensures
        with_pid(list, pid) == if at > 0 && list[at - 1] == pid {
            list
        } else {
            list.take(at).push(pid) + list.skip(at)
        },
    decreases list.len(),
{
    if at == list.len() {
        assert(list.take(at).push(pid) + list.skip(at) =~= list.push(pid));
    } else {
        assert(list[list.len() - 1] > pid);
        let shorter = list.drop_last();
        assert forall|i: int| at <= i < shorter.len() implies #[trigger] shorter[i] > pid by {
            assert(shorter[i] == list[i]);
        }
        lemma_with_pid_at(shorter, pid, at);
        assert(shorter.push(list.last()) =~= list);
        assert((shorter.take(at).push(pid) + shorter.skip(at)).push(list.last()) =~= list.take(
            at,
        ).push(pid) + list.skip(at));
    }
}

fn insert_pid(list: &mut Vec<u32>, pid: u32)
    ensures
        final(list)@ == with_pid(old(list)@, pid),
{
    let ghost before = list@;
    let mut at: usize = list.len();
    while at > 0 && list[at - 1] > pid
        invariant
            0 <= at <= list@.len(),
            before == list@,
            forall|i: int| at <= i < list@.len() ==> #[trigger] list@[i] > pid,
        decreases at,
    {
        at -= 1;
    }
    proof {
        lemma_with_pid_at(before, pid, at as int);
    }
    if at > 0 && list[at - 1] == pid {
        return ;
    }
    list.insert(at, pid);
    assert(list@ =~= before.take(at as int).push(pid) + before.skip(at as int));
}

fn insert_pids(list: &mut Vec<u32>, more: &Vec<u32>)
    ensures
        final(list)@ == with_pids(old(list)@, more@),
{
    let ghost before = list@;
    let mut i: usize = 0;
    assert(more@.take(0) =~= Seq::empty());
    while i < more.len()
        invariant
            0 <= i <= more@.len(),
            list@ == with_pids(before, more@.take(i as int)),
        decreases more@.len() - i,
    {
        assert(more@.take(i + 1).drop_last() =~= more@.take(i as int));
        insert_pid(list, more[i]);
        i += 1;
    }
    assert(more@.take(more@.len() as int) =~= more@);
}

fn find_trouble(entries: &Vec<MacosEntry>) -> (found: Option<usize>)
    ensures
        match found {
            Some(at) => at < entries@.len() && first_trouble(entries@) == Some(
                entries@[at as int],
            ) && (entries@[at as int] is Unreadable || entries@[at as int] is UnknownKind),
            None => first_trouble(entries@) is None,
        },
{
    let mut i: usize = 0;
    assert(entries@.skip(0) =~= entries@);
    while i < entries.len()
        invariant
            0 <= i <= entries@.len(),
            first_trouble(entries@) == first_trouble(entries@.skip(i as int)),
        decreases entries@.len() - i,
    {
        assert(entries@.skip(i as int)[0] == entries@[i as int]);
        match &entries[i] {
            MacosEntry::Unreadable(_) => {
                return Some(i);
            },
            MacosEntry::UnknownKind(_) => {
                return Some(i);
            },
            _ => {},
        }
        assert(entries@.skip(i as int).drop_first() =~= entries@.skip(i + 1));
        i += 1;
    }
    None
}

proof fn lemma_files_grow(entries: Seq<MacosEntry>, n: int)
    requires
        0 <= n <= entries.len(),
    ensures
        files(entries.take(n)).len() <= n,
    decreases n,
{
    if n > 0 {
        assert(entries.take(n).drop_last() =~= entries.take(n - 1));
        lemma_files_grow(entries, n - 1);
    }
}

fn count_files(entries: &Vec<MacosEntry>) -> (count: usize)
    ensures
        count == files(entries@).len(),
{
    let mut count: usize = 0;
    let mut i: usize = 0;
    assert(entries@.take(0) =~= Seq::empty());
    while i < entries.len()
        invariant
            0 <= i <= entries@.len(),
            count == files(entries@.take(i as int)).len(),
        decreases entries@.len() - i,
    {
        assert(entries@.take(i + 1).drop_last() =~= entries@.take(i as int));
        proof {
            lemma_files_grow(entries@, i as int);
        }
        if let MacosEntry::File { .. } = &entries[i] {
            count += 1;
        }
        i += 1;
    }
    assert(entries@.take(entries@.len() as int) =~= entries@);
    count
}

/// The processes of the files, or nothing where a file could not be resolved.
fn gather_pids(entries: &Vec<MacosEntry>, running: &Vec<RunningPath>) -> (result: Option<
    Vec<u32>,
>)
    ensures
        match result {
            Some(pids) => !has_unresolved(files(entries@)) && pids@ == pids_of_files(
                files(entries@),
                running@,
            ),
            None => has_unresolved(files(entries@)),
        },
{
    let mut pids: Vec<u32> = Vec::new();
    let mut unresolved = false;
    let mut i: usize = 0;
    assert(entries@.take(0) =~= Seq::empty());
    assert(pids@ =~= Seq::empty());
    while i < entries.len()
        invariant
            0 <= i <= entries@.len(),
            unresolved == has_unresolved(files(entries@.take(i as int))),
            pids@ == pids_of_files(files(entries@.take(i as int)), running@),
        decreases entries@.len() - i,
    {
        let ghost before = files(entries@.take(i as int));
        let ghost after = files(entries@.take(i + 1));
        assert(entries@.take(i + 1).drop_last() =~= entries@.take(i as int));
        if let MacosEntry::File { resolved } = &entries[i] {
            assert(after.drop_last() =~= before);
            proof {
                if has_unresolved(before) {
                    let k = choose|k: int| 0 <= k < before.len() && (#[trigger] before[k]) is None;
                    assert(after[k] is None);
                }
            }
            match resolved {
                Some(place) => {
                    let found = running::look_up(running, place.as_slice());
                    insert_pids(&mut pids, &found);
                    proof {
                        if has_unresolved(after) {
                            let k = choose|k: int|
                                0 <= k < after.len() && (#[trigger] after[k]) is None;
                            assert(before[k] is None);
                        }
                    }
                },
                None => {
                    unresolved = true;
                    assert(after[after.len() - 1] is None);
                },
            }
        }
        i += 1;
    }
    assert(entries@.take(entries@.len() as int) =~= entries@);
    if unresolved {
        None
    } else {
        Some(pids)
    }
}

/// Public running observation for one bundle directory, reused by the execution session's
/// plan and last-native-guard checks. Fails closed: anything but a proven absence yields
/// Running, Unknown or NotAttributable, never NotRunning.
pub fn bundle_running(look: &ExecutablesLook) -> (observation: RunningObservation)
    ensures
        observation@ == bundle_observation(*look),
{
    match &look.entries {
        Err(failure) => {
            if failure.kind == IoKind::NotFound {
                RunningObservation::NotAttributable("no Contents/MacOS directory")
            } else {
                RunningObservation::Unknown
            }
        },
        Ok(entries) => {
            if find_trouble(entries).is_some() {
                return RunningObservation::Unknown;
            }
            if count_files(entries) == 0 {
                return RunningObservation::NotAttributable("no regular executable observed");
            }
            match &look.running {
                Err(_) => RunningObservation::Unknown,
                Ok(list) => match gather_pids(entries, list) {
                    None => RunningObservation::NotAttributable(
                        "executable path cannot be resolved",
                    ),
                    Some(pids) => {
                        if pids.len() == 0 {
                            RunningObservation::NotRunning
                        } else {
                            RunningObservation::Running(pids)
                        }
                    },
                },
            }
        },
    }
}

/// The numbers of a list, separated by commas.
pub open spec fn listed(numbers: Seq<u32>) -> Seq<char>
    decreases numbers.len(),
{
    if numbers.len() == 0 {
        Seq::empty()
    } else if numbers.len() == 1 {
        version::decimal(numbers[0] as nat)
    } else {
        listed(numbers.drop_last()) + ", "@ + version::decimal(numbers.last() as nat)
    }
}

/// The numbers of a list, separated by commas.
pub fn list_numbers(numbers: &Vec<u32>) -> (text: String)
    ensures
        text@ == listed(numbers@),
{
    let mut shown: String = String::new();
    let mut i: usize = 0;
    assert(numbers@.take(0) =~= Seq::empty());
    assert(shown@ =~= Seq::<char>::empty());
    while i < numbers.len()
        invariant
            0 <= i <= numbers@.len(),
            shown@ == listed(numbers@.take(i as int)),
        decreases numbers@.len() - i,
    {
        assert(numbers@.take(i + 1).drop_last() =~= numbers@.take(i as int));
        if i > 0 {
            shown.append(", ");
        }
        let next = version::decimal_text(numbers[i] as u64);
        shown.append(next.as_str());
        assert(shown@ =~= listed(numbers@.take(i + 1)));
        i += 1;
    }
    assert(numbers@.take(numbers@.len() as int) =~= numbers@);
    shown
}

/// The refusal over running executables.
pub open spec fn running_refusal(pids: Seq<u32>) -> RefusalView {
    refused(
        UninstallRefusalCode::Running,
        "bundle executables are running (pids: ["@ + listed(pids)
            + "]); refused, never signaled"@,
    )
}

/// What the executables of a bundle add to its preview.
pub open spec fn after_executables(before: PreviewView, look: ExecutablesLook) -> PreviewView {
    let seen = before.seen_running(bundle_observation(look));
    match look.entries {
        Err(failure) => if failure.kind == IoKind::NotFound {
            PreviewView { executables: Some(0), ..seen }
        } else {
            seen.with(
                failed(UninstallRefusalCode::Internal, "cannot read Contents/MacOS: "@, failure),
            )
        },
        Ok(entries) => match first_trouble(entries@) {
            Some(MacosEntry::Unreadable(failure)) => seen.with(
                failed(
                    UninstallRefusalCode::Internal,
                    "cannot read a Contents/MacOS entry: "@,
                    failure,
                ),
            ),
            Some(MacosEntry::UnknownKind(failure)) => seen.with(
                failed(
                    UninstallRefusalCode::Internal,
                    "cannot inspect a Contents/MacOS entry: "@,
                    failure,
                ),
            ),
            _ => {
                let counted = PreviewView { executables: Some(files(entries@).len()), ..seen };
                match seen.running {
                    RunningView::Running(pids) => counted.with(running_refusal(pids)),
                    _ => counted,
                }
            },
        },
    }
}

/// Matches every regular file directly under `Contents/MacOS` against the visible running
/// processes. Any match refuses the uninstall; a failed listing is unknown, never "not
/// running".
fn observe_running(preview: &mut UninstallPreview, look: &ExecutablesLook)
    ensures
        final(preview)@ == after_executables(old(preview)@, *look),
{
    let observation = bundle_running(look);
    match &look.entries {
        Err(failure) => {
            preview.running = observation;
            if failure.kind == IoKind::NotFound {
                preview.executables_observed = Some(0);
            } else {
                preview.refuse(
                    UninstallRefusal::os(
                        UninstallRefusalCode::Internal,
                        "cannot read Contents/MacOS: ",
                        failure,
                    ),
                );
            }
        },
        Ok(entries) => match find_trouble(entries) {
            Some(at) => {
                preview.running = observation;
                match &entries[at] {
                    MacosEntry::Unreadable(failure) => {
                        preview.refuse(
                            UninstallRefusal::os(
                                UninstallRefusalCode::Internal,
                                "cannot read a Contents/MacOS entry: ",
                                failure,
                            ),
                        );
                    },
                    MacosEntry::UnknownKind(failure) => {
                        preview.refuse(
                            UninstallRefusal::os(
                                UninstallRefusalCode::Internal,
                                "cannot inspect a Contents/MacOS entry: ",
                                failure,
                            ),
                        );
                    },
                    _ => {},
                }
            },
            None => {
                preview.executables_observed = Some(count_files(entries));
                let refusal: Option<UninstallRefusal> = match &observation {
                    RunningObservation::Running(pids) => {
                        let shown = list_numbers(pids);
                        let message = text::concat3(
                            "bundle executables are running (pids: [",
                            shown.as_str(),
                            "]); refused, never signaled",
                        );
                        Some(UninstallRefusal::new(UninstallRefusalCode::Running, message.as_str()))
                    },
                    _ => None,
                };
                preview.running = observation;
                if let Some(refusal) = refusal {
                    preview.refuse(refusal);
                }
            },
        },
    }
}

/// Why the volume of a bundle speaks against it.
pub open spec fn volume_refusal(host: Host, local: Result<bool, IoFailure>) -> Option<RefusalView> {
    if host != Host::MacOs {
        Some(
            refused(
                UninstallRefusalCode::Internal,
                "cannot verify the bundle volume: uninstall preview volume checks currently require macOS"@,
            ),
        )
    } else {
        match local {
            Ok(true) => None,
            Ok(false) => Some(
                refused(
                    UninstallRefusalCode::NonLocalVolume,
                    "the bundle does not reside on a local volume"@,
                ),
            ),
            Err(failure) => Some(
                failed(
                    UninstallRefusalCode::Internal,
                    "cannot verify the bundle volume: "@,
                    failure,
                ),
            ),
        }
    }
}

/// Why the property list of a bundle speaks against it.
pub open spec fn plist_refusal(plist: Result<ResourceKind, IoFailure>) -> Option<RefusalView> {
    match plist {
        Ok(ResourceKind::File) => None,
        Ok(_) => Some(
            refused(
                UninstallRefusalCode::InfoPlistNotRegularFile,
                "Contents/Info.plist is not a regular file (links are not followed)"@,
            ),
        ),
        Err(failure) => if failure.kind == IoKind::NotFound {
            Some(
                refused(
                    UninstallRefusalCode::MissingInfoPlist,
                    "Contents/Info.plist is missing"@,
                ),
            )
        } else {
            Some(
                failed(
                    UninstallRefusalCode::Internal,
                    "cannot inspect Contents/Info.plist: "@,
                    failure,
                ),
            )
        },
    }
}

pub open spec fn with_refusal(preview: PreviewView, refusal: Option<RefusalView>) -> PreviewView {
    match refusal {
        Some(refusal) => preview.with(refusal),
        None => preview,
    }
}

/// A preview under way. Once it has ended nothing more of the bundle is looked at.
#[derive(Debug)]
pub struct UninstallRun {
    pub preview: UninstallPreview,
    pub ended: bool,
}

/// Whether a bundle lies where the system keeps its own.
pub open spec fn is_system_location(place: Seq<u8>) -> bool {
    path::is_within(place, utf8::encode_utf8("/System"@))
}

/// Begins the read-only uninstall preview for one explicit bundle, given by its absolute
/// path. Refusals are data, not errors. System locations are a closed refusal boundary: no
/// metadata, volume, plist, executable or running inspection happens beneath them.
pub fn preview_bundle_uninstall(bundle: &[u8]) -> (run: UninstallRun)
    ensures
        run.ended == is_system_location(bundle@),
        run.preview@ == with_refusal(
            base_view(bundle@),
            if is_system_location(bundle@) {
                Some(
                    refused(
                        UninstallRefusalCode::SystemLocation,
                        "system locations are never uninstall targets"@,
                    ),
                )
            } else {
                None
            },
        ),
{
    let mut preview = base_preview(bundle);
    if path::within(bundle, "/System".as_bytes()) {
        preview.refuse(
            UninstallRefusal::new(
                UninstallRefusalCode::SystemLocation,
                "system locations are never uninstall targets",
            ),
        );
        return UninstallRun { preview, ended: true };
    }
    UninstallRun { preview, ended: false }
}

/// Whether what was seen at the path of a bundle ends its preview.
pub open spec fn target_ends(look: Result<TargetLook, IoFailure>) -> bool {
    match look {
        Err(_) => true,
        Ok(target) => target.kind != ResourceKind::Directory,
    }
}

/// What is kept of a bundle's identity.
pub open spec fn identity_of(target: TargetLook) -> BundleIdentity {
    BundleIdentity {
        device: target.device,
        inode: target.inode,
        logical_bytes: target.logical_bytes,
        modified: match target.modified {
            Some(time) => time,
            None => NativeTime { seconds: 0, nanoseconds: 0 },
        },
    }
}

/// What the path of a bundle adds to its preview.
pub open spec fn after_target(
    before: PreviewView,
    look: Result<TargetLook, IoFailure>,
) -> PreviewView {
    match look {
        Err(failure) => before.with(
            failed(
                if failure.kind == IoKind::NotFound {
                    UninstallRefusalCode::NotFound
                } else {
                    UninstallRefusalCode::Internal
                },
                "cannot inspect "@ + unicode::lossy_text(before.path) + ": "@,
                failure,
            ),
        ),
        Ok(target) => if target.kind == ResourceKind::Link {
            before.with(
                refused(
                    UninstallRefusalCode::SymlinkBundle,
                    "the bundle path itself is a symbolic link and is never followed"@,
                ),
            )
        } else if target.kind != ResourceKind::Directory {
            before.with(
                refused(
                    UninstallRefusalCode::NotDirectory,
                    "the bundle path is not a directory"@,
                ),
            )
        } else {
            let named = with_refusal(
                before,
                if candidates::named_like_app(before.path) {
                    None
                } else {
                    Some(
                        refused(
                            UninstallRefusalCode::NotAppBundle,
                            "the directory name does not end in .app"@,
                        ),
                    )
                },
            );
            PreviewView { identity: Some(identity_of(target)), ..named }
        },
    }
}

impl UninstallRun {
    /// Takes what was seen at the path of the bundle.
    pub fn take_target(&mut self, look: &Result<TargetLook, IoFailure>)
        requires
            !old(self).ended,
        ensures
            final(self).ended == target_ends(*look),
            final(self).preview@ == after_target(old(self).preview@, *look),
    {
        match look {
            Err(failure) => {
                let code: UninstallRefusalCode = if failure.kind == IoKind::NotFound {
                    UninstallRefusalCode::NotFound
                } else {
                    UninstallRefusalCode::Internal
                };
                let shown = unicode::from_utf8_lossy(self.preview.bundle_path.as_slice());
                let context = text::concat3("cannot inspect ", shown.as_str(), ": ");
                self.preview.refuse(UninstallRefusal::os(code, context.as_str(), failure));
                self.ended = true;
            },
            Ok(target) => {
                if target.kind == ResourceKind::Link {
                    self.preview.refuse(
                        UninstallRefusal::new(
                            UninstallRefusalCode::SymlinkBundle,
                            "the bundle path itself is a symbolic link and is never followed",
                        ),
                    );
                    self.ended = true;
                    return ;
                }
                if target.kind != ResourceKind::Directory {
                    self.preview.refuse(
                        UninstallRefusal::new(
                            UninstallRefusalCode::NotDirectory,
                            "the bundle path is not a directory",
                        ),
                    );
                    self.ended = true;
                    return ;
                }
                if !candidates::is_app_candidate(self.preview.bundle_path.as_slice()) {
                    self.preview.refuse(
                        UninstallRefusal::new(
                            UninstallRefusalCode::NotAppBundle,
                            "the directory name does not end in .app",
                        ),
                    );
                }
                self.preview.identity = Some(
                    BundleIdentity {
                        device: target.device,
                        inode: target.inode,
                        logical_bytes: target.logical_bytes,
                        modified: match target.modified {
                            Some(time) => time,
                            None => NativeTime { seconds: 0, nanoseconds: 0 },
                        },
                    },
                );
            },
        }
    }

    /// Ends the preview with what was seen of the volume, of `Contents/Info.plist` (without
    /// following links) and of the executables.
    pub fn finish(
        self,
        host: Host,
        local: &Result<bool, IoFailure>,
        plist: &Result<ResourceKind, IoFailure>,
        look: &ExecutablesLook,
    ) -> (preview: UninstallPreview)
        requires
            !self.ended,
        ensures
            preview@ == after_executables(
                with_refusal(
                    with_refusal(self.preview@, volume_refusal(host, *local)),
                    plist_refusal(*plist),
                ),
                *look,
            ),
    {
        let mut preview = self.preview;
        if host != Host::MacOs {
            preview.refuse(
                UninstallRefusal::new(
                    UninstallRefusalCode::Internal,
                    "cannot verify the bundle volume: uninstall preview volume checks currently require macOS",
                ),
            );
        } else {
            match local {
                Ok(true) => {},
                Ok(false) => {
                    preview.refuse(
                        UninstallRefusal::new(
                            UninstallRefusalCode::NonLocalVolume,
                            "the bundle does not reside on a local volume",
                        ),
                    );
                },
                Err(failure) => {
                    preview.refuse(
                        UninstallRefusal::os(
                            UninstallRefusalCode::Internal,
                            "cannot verify the bundle volume: ",
                            failure,
                        ),
                    );
                },
            }
        }
        match plist {
            Ok(ResourceKind::File) => {},
            Ok(_) => {
                preview.refuse(
                    UninstallRefusal::new(
                        UninstallRefusalCode::InfoPlistNotRegularFile,
                        "Contents/Info.plist is not a regular file (links are not followed)",
                    ),
                );
            },
            Err(failure) => {
                if failure.kind == IoKind::NotFound {
                    preview.refuse(
                        UninstallRefusal::new(
                            UninstallRefusalCode::MissingInfoPlist,
                            "Contents/Info.plist is missing",
                        ),
                    );
                } else {
                    preview.refuse(
                        UninstallRefusal::os(
                            UninstallRefusalCode::Internal,
                            "cannot inspect Contents/Info.plist: ",
                            failure,
                        ),
                    );
                }
            },
        }
        observe_running(&mut preview, look);
        preview
    }
}

/// Whether a list of numbers is sorted and holds each number once.
pub open spec fn increasing(list: Seq<u32>) -> bool {
    forall|i: int, j: int| 0 <= i < j < list.len() ==> #[trigger] list[i] < #[trigger] list[j]
}

proof fn lemma_with_pid(list: Seq<u32>, pid: u32)
    requires
        increasing(list),
    ensures
        increasing(with_pid(list, pid)),
        forall|x: u32| #[trigger]
            with_pid(list, pid).contains(x) == (list.contains(x) || x == pid),
    decreases list.len(),
{
    let result = with_pid(list, pid);
    if list.len() == 0 || list.last() < pid {
        assert forall|x: u32| #[trigger] result.contains(x) == (list.contains(x) || x == pid) by {
            if list.contains(x) {
                let k = choose|k: int| 0 <= k < list.len() && list[k] == x;
                assert(result[k] == x);
            }
            if x == pid {
                assert(result[list.len() as int] == x);
            }
        }
        assert forall|i: int, j: int| 0 <= i < j < result.len() implies #[trigger] result[i]
            < #[trigger] result[j] by {
            if j == list.len() && i < list.len() - 1 {
                assert(list[i] < list[list.len() - 1]);
            }
        }
    } else if list.last() == pid {
        assert(list[list.len() - 1] == pid);
    } else {
        let shorter = list.drop_last();
        let last = list.last();
        lemma_with_pid(shorter, pid);
        let inner = with_pid(shorter, pid);
        assert forall|x: u32| #[trigger] result.contains(x) == (list.contains(x) || x == pid) by {
            assert(inner.contains(x) == (shorter.contains(x) || x == pid));
            if inner.contains(x) {
                let k = choose|k: int| 0 <= k < inner.len() && inner[k] == x;
                assert(result[k] == x);
            }
            if shorter.contains(x) {
                let k = choose|k: int| 0 <= k < shorter.len() && shorter[k] == x;
                assert(list[k] == x);
            }
            if x == last {
                assert(result[inner.len() as int] == x);
                assert(list[list.len() - 1] == x);
            }
            if list.contains(x) && x != last {
                let k = choose|k: int| 0 <= k < list.len() && list[k] == x;
                assert(shorter[k] == x);
            }
            if result.contains(x) && x != last {
                let k = choose|k: int| 0 <= k < result.len() && result[k] == x;
                assert(inner[k] == x);
            }
        }
        assert forall|i: int, j: int| 0 <= i < j < result.len() implies #[trigger] result[i]
            < #[trigger] result[j] by {
            if j == inner.len() {
                assert(inner.contains(inner[i]));
                if inner[i] != pid {
                    let k = choose|k: int| 0 <= k < shorter.len() && shorter[k] == inner[i];
                    assert(list[k] < list[list.len() - 1]);
                }
            } else {
                assert(result[i] == inner[i] && result[j] == inner[j]);
            }
        }
    }
}

proof fn lemma_with_pids(list: Seq<u32>, more: Seq<u32>)
    requires
        increasing(list),
    ensures
        increasing(with_pids(list, more)),
        forall|x: u32| #[trigger]
            with_pids(list, more).contains(x) == (list.contains(x) || more.contains(x)),
    decreases more.len(),
{
    if more.len() > 0 {
        let fewer = more.drop_last();
        lemma_with_pids(list, fewer);
        lemma_with_pid(with_pids(list, fewer), more.last());
        assert forall|x: u32| #[trigger]
            with_pids(list, more).contains(x) == (list.contains(x) || more.contains(x)) by {
            assert(with_pids(list, fewer).contains(x) == (list.contains(x) || fewer.contains(x)));
            if fewer.contains(x) {
                let k = choose|k: int| 0 <= k < fewer.len() && fewer[k] == x;
                assert(more[k] == x);
            }
            if x == more.last() {
                assert(more[more.len() - 1] == x);
            }
            if more.contains(x) && x != more.last() {
                let k = choose|k: int| 0 <= k < more.len() && more[k] == x;
                assert(fewer[k] == x);
            }
        }
    }
}

/// Whether one of the files runs as the given process.
pub open spec fn runs_as(
    found: Seq<Option<Seq<u8>>>,
    running: Seq<RunningPath>,
    pid: u32,
) -> bool {
    exists|i: int|
        0 <= i < found.len() && (#[trigger] found[i]) is Some && running::listed_pids(
            running,
            found[i]->0,
        ).contains(pid)
}

/// The processes that are reported of a bundle are sorted, each once, and they are exactly
/// the processes that run one of its files.
pub proof fn reported_pids_are_exact(found: Seq<Option<Seq<u8>>>, running: Seq<RunningPath>)
    ensures
        increasing(pids_of_files(found, running)),
        forall|pid: u32| #[trigger]
            pids_of_files(found, running).contains(pid) == runs_as(found, running, pid),
    decreases found.len(),
{
    if found.len() > 0 {
        let fewer = found.drop_last();
        reported_pids_are_exact(fewer, running);
        if found.last() is Some {
            lemma_with_pids(
                pids_of_files(fewer, running),
                running::listed_pids(running, found.last()->0),
            );
        }
        assert forall|pid: u32| #[trigger]
            pids_of_files(found, running).contains(pid) == runs_as(found, running, pid) by {
            assert(pids_of_files(fewer, running).contains(pid) == runs_as(fewer, running, pid));
            if runs_as(fewer, running, pid) {
                let k = choose|k: int|
                    0 <= k < fewer.len() && (#[trigger] fewer[k]) is Some && running::listed_pids(
                        running,
                        fewer[k]->0,
                    ).contains(pid);
                assert(found[k] == fewer[k]);
            }
            if found.last() is Some && running::listed_pids(running, found.last()->0).contains(
                pid,
            ) {
                assert(found[found.len() - 1] is Some);
            }
            if runs_as(found, running, pid) {
                let k = choose|k: int|
                    0 <= k < found.len() && (#[trigger] found[k]) is Some && running::listed_pids(
                        running,
                        found[k]->0,
                    ).contains(pid);
                if k < fewer.len() {
                    assert(fewer[k] == found[k]);
                }
            }
        }
    }
}

/// "Not running" is a proven absence: the directory and every entry of it could be read, it
/// holds an executable, every executable resolved, the processes could be listed, and none
/// of them runs one of the executables.
pub proof fn absence_is_proven(look: ExecutablesLook)
    requires
        bundle_observation(look) == RunningView::NotRunning,
    ensures
        look.entries is Ok,
        look.running is Ok,
        first_trouble(look.entries->Ok_0@) is None,
        files(look.entries->Ok_0@).len() > 0,
        !has_unresolved(files(look.entries->Ok_0@)),
        forall|pid: u32| !runs_as(files(look.entries->Ok_0@), look.running->Ok_0@, pid),
{
    let found = files(look.entries->Ok_0@);
    let list = look.running->Ok_0@;
    reported_pids_are_exact(found, list);
    assert forall|pid: u32| !runs_as(found, list, pid) by {
        assert(pids_of_files(found, list).contains(pid) == runs_as(found, list, pid));
    }
}

/// Whether a preview refuses for the given reason.
pub open spec fn refuses(preview: PreviewView, code: UninstallRefusalCode) -> bool {
    exists|i: int| 0 <= i < preview.refusals.len() && (#[trigger] preview.refusals[i]).code == code
}

/// A bundle that is seen running is refused for that, and refusals are never taken back.
pub proof fn running_bundle_is_refused(before: PreviewView, look: ExecutablesLook)
    ensures
        bundle_observation(look) is Running ==> refuses(
            after_executables(before, look),
            UninstallRefusalCode::Running,
        ),
        before.refusals.len() <= after_executables(before, look).refusals.len(),
        after_executables(before, look).refusals.take(before.refusals.len() as int)
            == before.refusals,
{
    let after = after_executables(before, look);
    assert(after.refusals.take(before.refusals.len() as int) =~= before.refusals);
    if bundle_observation(look) is Running {
        assert(after.refusals[before.refusals.len() as int].code == UninstallRefusalCode::Running);
    }
}

} // verus!
