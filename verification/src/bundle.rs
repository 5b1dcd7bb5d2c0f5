//! Inspecting one application bundle.

use crate::app_inventory::AppIssueCode;
use crate::model::{FileIdentity, ResourceKind};
use crate::path;
use crate::plist;
use crate::probe;
use crate::probe::{AppError, AppFault};
use crate::text;
use vstd::prelude::*;
use vstd::string::*;
use vstd::utf8;

verus! {

/// What sort of failure a system call reported.
#[derive(Clone, Copy, Debug, PartialEq, Eq, Structural)]
pub enum IoKind {
    /// Too many links on the way.
    Loop,
    PermissionDenied,
    NotFound,
    Other,
}

/// A system call that failed.
#[derive(Debug)]
pub struct IoFailure {
    pub kind: IoKind,
    pub text: String,
    pub os_code: Option<i32>,
}

/// How a failed system call is reported.
pub open spec fn errno_fault(failure: IoFailure, context: Seq<char>) -> AppFault {
    AppFault {
        code: match failure.kind {
            IoKind::Loop => AppIssueCode::LinkSkipped,
            IoKind::PermissionDenied => AppIssueCode::PermissionDenied,
            IoKind::NotFound => AppIssueCode::NotFound,
            IoKind::Other => AppIssueCode::Internal,
        },
        message: context + ": "@ + failure.text@,
        os_code: failure.os_code,
    }
}

/// Reports a failed system call.
pub fn map_errno(failure: &IoFailure, context: &str) -> (error: AppError)
    ensures
        error@ == errno_fault(*failure, context@),
{
    AppError {
        code: match failure.kind {
            IoKind::Loop => AppIssueCode::LinkSkipped,
            IoKind::PermissionDenied => AppIssueCode::PermissionDenied,
            IoKind::NotFound => AppIssueCode::NotFound,
            IoKind::Other => AppIssueCode::Internal,
        },
        message: text::concat3(context, ": ", failure.text.as_str()),
        os_code: failure.os_code,
    }
}

/// The bits of a mode that say what kind of object it is of.
pub const KIND_MASK: u32 = 0o170000;

pub const KIND_FILE: u32 = 0o100000;

pub const KIND_DIRECTORY: u32 = 0o040000;

pub const KIND_LINK: u32 = 0o120000;

/// The flag of an object whose content is not on this machine.
pub const FLAG_DATALESS: u32 = 0x4000_0000;

/// A time that the file system has kept.
#[derive(Clone, Copy, Debug, PartialEq, Eq, Structural)]
pub struct Moment {
    pub seconds: i64,
    pub nanoseconds: i64,
}

/// What the system says of one object.
#[derive(Clone, Copy, Debug, PartialEq, Eq, Structural)]
pub struct RawStat {
    pub mode: u32,
    pub device: u64,
    pub inode: u64,
    pub flags: u32,
    pub size: i64,
    pub mtime: Moment,
    pub ctime: Moment,
}

impl RawStat {
    pub open spec fn is_dataless(self) -> bool {
        self.flags & FLAG_DATALESS != 0
    }

    pub open spec fn kind(self) -> ResourceKind {
        let bits = self.mode & KIND_MASK;
        if bits == KIND_FILE {
            ResourceKind::File
        } else if bits == KIND_DIRECTORY {
            ResourceKind::Directory
        } else if bits == KIND_LINK {
            ResourceKind::Link
        } else {
            ResourceKind::Other
        }
    }

    /// What is kept of an object to tell it from any other.
    pub open spec fn stamp(self) -> Result<FileStamp, AppFault> {
        if self.size < 0 {
            Err(probe::fault(AppIssueCode::Internal, "negative stat size"@))
        } else {
            Ok(
                FileStamp {
                    identity: FileIdentity::Unix { device: self.device, inode: self.inode },
                    kind: self.kind(),
                    flags: self.flags,
                    size: self.size as u64,
                    mtime: self.mtime,
                    ctime: self.ctime,
                },
            )
        }
    }
}

/// What is kept of an object to tell it from any other.
#[derive(Clone, Copy, Debug, PartialEq, Eq, Structural)]
pub struct FileStamp {
    pub identity: FileIdentity,
    pub kind: ResourceKind,
    pub flags: u32,
    pub size: u64,
    pub mtime: Moment,
    pub ctime: Moment,
}

pub open spec fn stamp_result(result: Result<FileStamp, AppError>) -> Result<FileStamp, AppFault> {
    match result {
        Ok(stamp) => Ok(stamp),
        Err(error) => Err(error@),
    }
}

/// What is kept of an object to tell it from any other.
pub fn stamp_from_stat(stat: RawStat) -> (result: Result<FileStamp, AppError>)
    ensures
        stamp_result(result) == stat.stamp(),
{
    if stat.size < 0 {
        return Err(AppError::new(AppIssueCode::Internal, "negative stat size"));
    }
    let bits: u32 = stat.mode & KIND_MASK;
    let kind: ResourceKind = if bits == KIND_FILE {
        ResourceKind::File
    } else if bits == KIND_DIRECTORY {
        ResourceKind::Directory
    } else if bits == KIND_LINK {
        ResourceKind::Link
    } else {
        ResourceKind::Other
    };
    Ok(
        FileStamp {
            identity: FileIdentity::Unix { device: stat.device, inode: stat.inode },
            kind,
            flags: stat.flags,
            size: stat.size as u64,
            mtime: stat.mtime,
            ctime: stat.ctime,
        },
    )
}

/// Whether an object's content is not on this machine.
pub fn dataless(stat: RawStat) -> (answer: bool)
    ensures
        answer == stat.is_dataless(),
{
    stat.flags & FLAG_DATALESS != 0
}

/// What came of opening an object and asking what it is.
#[derive(Debug)]
pub enum HeldLook {
    NotOpened(IoFailure),
    NotStated(IoFailure),
    Held(RawStat),
}

impl HeldLook {
    /// What the object is, or why that is not known.
    pub open spec fn stated(self, open: Seq<char>, stat: Seq<char>) -> Result<
        (RawStat, FileStamp),
        AppFault,
    > {
        match self {
            HeldLook::NotOpened(failure) => Err(errno_fault(failure, open)),
            HeldLook::NotStated(failure) => Err(errno_fault(failure, stat)),
            HeldLook::Held(raw) => match raw.stamp() {
                Ok(stamp) => Ok((raw, stamp)),
                Err(found) => Err(found),
            },
        }
    }
}

pub open spec fn stated_result(result: Result<(RawStat, FileStamp), AppError>) -> Result<
    (RawStat, FileStamp),
    AppFault,
> {
    match result {
        Ok(pair) => Ok(pair),
        Err(error) => Err(error@),
    }
}

pub fn state(look: &HeldLook, open: &str, stat: &str) -> (result: Result<
    (RawStat, FileStamp),
    AppError,
>)
    ensures
        stated_result(result) == look.stated(open@, stat@),
{
    match look {
        HeldLook::NotOpened(failure) => Err(map_errno(failure, open)),
        HeldLook::NotStated(failure) => Err(map_errno(failure, stat)),
        HeldLook::Held(raw) => match stamp_from_stat(*raw) {
            Ok(stamp) => Ok((*raw, stamp)),
            Err(error) => Err(error),
        },
    }
}

/// A directory between the root and the bundle, and who it was.
#[derive(Debug)]
pub struct DirCheckpoint {
    pub name: Vec<u8>,
    pub baseline: FileStamp,
}

/// What was seen where the bundle says that its executable is.
#[derive(Clone, Copy, Debug, PartialEq, Eq, Structural)]
pub enum ExecutableObservation {
    Missing,
    Present(FileStamp),
}

/// A bundle that is held open while it is looked at.
#[derive(Debug)]
pub struct InspectedBundle {
    pub root_baseline: FileStamp,
    pub dir_chain: Vec<DirCheckpoint>,
    pub bundle_baseline: FileStamp,
    pub contents_baseline: FileStamp,
    pub info_baseline: FileStamp,
    pub macos_baseline: Option<FileStamp>,
    pub executable_observation: Option<ExecutableObservation>,
}

/// Where a bundle stands, as a scan saw it.
#[derive(Debug)]
pub struct BundleLocation {
    pub root: Vec<u8>,
    pub root_identity: FileIdentity,
    pub relative: Vec<u8>,
    /// The directories between the root and the bundle.
    pub ancestors: Vec<(Vec<u8>, FileIdentity)>,
    pub identity: FileIdentity,
}

/// What came of opening a bundle. Nothing is looked at behind the first failure.
#[derive(Debug)]
pub struct OpenLook {
    pub root: HeldLook,
    pub ancestors: Vec<HeldLook>,
    pub bundle: HeldLook,
    pub contents: HeldLook,
    pub info: HeldLook,
}

/// Whether a root can be opened at all: absolute, without steps up, and not the root of the
/// file system.
pub open spec fn proper_root(root: Seq<u8>) -> bool {
    &&& path::is_absolute(root)
    &&& !crate::wire::wanders(root)
    &&& path::components(root).len() > 0
}

/// Opening a directory that a scan has seen.
pub open spec fn seen_directory(
    look: HeldLook,
    identity: FileIdentity,
    open: Seq<char>,
    stat: Seq<char>,
    changed: Seq<char>,
) -> Result<FileStamp, AppFault> {
    match look.stated(open, stat) {
        Err(found) => Err(found),
        Ok((raw, stamp)) => if stamp.kind != ResourceKind::Directory || stamp.identity != identity
            || raw.is_dataless() {
            Err(probe::fault(AppIssueCode::Changed, changed))
        } else {
            Ok(stamp)
        },
    }
}

/// Opening the directories between the root and the bundle, one by one.
pub open spec fn opened_chain(
    ancestors: Seq<(Vec<u8>, FileIdentity)>,
    looks: Seq<HeldLook>,
) -> Result<Seq<FileStamp>, AppFault>
    decreases ancestors.len(),
{
    if ancestors.len() == 0 {
        Ok(Seq::empty())
    } else {
        match opened_chain(ancestors.drop_last(), looks) {
            Err(found) => Err(found),
            Ok(stamps) => if path::steps(ancestors.last().0@).len() != 1 {
                Err(probe::fault(AppIssueCode::InvalidInput, "invalid ancestor component"@))
            } else {
                match seen_directory(
                    looks[ancestors.len() - 1],
                    ancestors.last().1,
                    "open ancestor"@,
                    "stat ancestor"@,
                    "ancestor changed since scan"@,
                ) {
                    Err(found) => Err(found),
                    Ok(stamp) => Ok(stamps.push(stamp)),
                }
            },
        }
    }
}

/// What is held of a bundle that was opened.
#[verifier::ext_equal]
pub struct BundleView {
    pub root: FileStamp,
    /// The names of the directories between the root and the bundle.
    pub names: Seq<Seq<u8>>,
    pub chain: Seq<FileStamp>,
    pub bundle: FileStamp,
    pub contents: FileStamp,
    pub info: FileStamp,
    pub macos: Option<FileStamp>,
    pub executable: Option<ExecutableObservation>,
}

pub open spec fn chain_stamps(chain: Seq<DirCheckpoint>) -> Seq<FileStamp> {
    Seq::new(chain.len(), |i: int| chain[i].baseline)
}

pub open spec fn chain_names(chain: Seq<DirCheckpoint>) -> Seq<Seq<u8>> {
    Seq::new(chain.len(), |i: int| chain[i].name@)
}

/// The names of the directories that a scan saw between a root and a bundle.
pub open spec fn ancestor_names(ancestors: Seq<(Vec<u8>, FileIdentity)>) -> Seq<Seq<u8>> {
    Seq::new(ancestors.len(), |i: int| ancestors[i].0@)
}

impl View for InspectedBundle {
    type V = BundleView;

    open spec fn view(&self) -> BundleView {
        BundleView {
            root: self.root_baseline,
            names: chain_names(self.dir_chain@),
            chain: chain_stamps(self.dir_chain@),
            bundle: self.bundle_baseline,
            contents: self.contents_baseline,
            info: self.info_baseline,
            macos: self.macos_baseline,
            executable: self.executable_observation,
        }
    }
}

/// Opening the bundle itself.
pub open spec fn opened_bundle(look: HeldLook, identity: FileIdentity) -> Result<
    FileStamp,
    AppFault,
> {
    match look.stated("open app bundle"@, "stat app bundle"@) {
        Err(found) => Err(found),
        Ok((raw, stamp)) => if stamp.kind != ResourceKind::Directory || stamp.identity != identity {
            Err(probe::fault(AppIssueCode::Changed, "app bundle changed since scan"@))
        } else if raw.is_dataless() {
            Err(probe::fault(AppIssueCode::CloudOrDataless, "app bundle is dataless"@))
        } else {
            Ok(stamp)
        },
    }
}

/// Opening something inside the bundle.
pub open spec fn opened_inside(
    look: HeldLook,
    kind: ResourceKind,
    open: Seq<char>,
    stat: Seq<char>,
    changed: Seq<char>,
) -> Result<FileStamp, AppFault> {
    match look.stated(open, stat) {
        Err(found) => Err(found),
        Ok((raw, stamp)) => if stamp.kind != kind || raw.is_dataless() {
            Err(probe::fault(AppIssueCode::Changed, changed))
        } else {
            Ok(stamp)
        },
    }
}

/// What comes of opening a bundle under a policy that is in force.
pub open spec fn opened(location: BundleLocation, look: OpenLook) -> Result<BundleView, AppFault> {
    if !proper_root(location.root@) {
        Err(probe::fault(AppIssueCode::InvalidInput, "root must be a non-root absolute path"@))
    } else {
        match seen_directory(
            look.root,
            location.root_identity,
            "open root"@,
            "stat root"@,
            "root changed since scan"@,
        ) {
            Err(found) => Err(found),
            Ok(root) => match opened_chain(location.ancestors@, look.ancestors@) {
                Err(found) => Err(found),
                Ok(_) if location.relative@.len() > 0 && path::file_name(
                    location.relative@,
                ) is None => Err(
                    probe::fault(AppIssueCode::InvalidInput, "missing app bundle filename"@),
                ),
                Ok(chain) => match opened_bundle(look.bundle, location.identity) {
                    Err(found) => Err(found),
                    Ok(bundle) => match opened_inside(
                        look.contents,
                        ResourceKind::Directory,
                        "open Contents"@,
                        "stat Contents"@,
                        "Contents changed or unavailable"@,
                    ) {
                        Err(found) => Err(found),
                        Ok(contents) => match opened_inside(
                            look.info,
                            ResourceKind::File,
                            "open Contents/Info.plist"@,
                            "stat Info.plist"@,
                            "Info.plist changed or unavailable"@,
                        ) {
                            Err(found) => Err(found),
                            Ok(info) => Ok(
                                BundleView {
                                    root,
                                    names: ancestor_names(location.ancestors@),
                                    chain,
                                    bundle,
                                    contents,
                                    info,
                                    macos: None,
                                    executable: None,
                                },
                            ),
                        },
                    },
                },
            },
        }
    }
}

fn open_seen_directory(
    look: &HeldLook,
    identity: FileIdentity,
    open: &str,
    stat: &str,
    changed: &str,
) -> (result: Result<FileStamp, AppError>)
    ensures
        stamp_result(result) == seen_directory(*look, identity, open@, stat@, changed@),
{
    match state(look, open, stat) {
        Err(error) => Err(error),
        Ok((raw, stamp)) => if stamp.kind != ResourceKind::Directory || stamp.identity != identity
            || dataless(raw) {
            Err(AppError::new(AppIssueCode::Changed, changed))
        } else {
            Ok(stamp)
        },
    }
}

fn open_inside(look: &HeldLook, kind: ResourceKind, open: &str, stat: &str, changed: &str) -> (
    result: Result<FileStamp, AppError>)
    ensures
        stamp_result(result) == opened_inside(*look, kind, open@, stat@, changed@),
{
    match state(look, open, stat) {
        Err(error) => Err(error),
        Ok((raw, stamp)) => if stamp.kind != kind || dataless(raw) {
            Err(AppError::new(AppIssueCode::Changed, changed))
        } else {
            Ok(stamp)
        },
    }
}

pub open spec fn chain_result(result: Result<Vec<DirCheckpoint>, AppError>) -> Result<
    Seq<FileStamp>,
    AppFault,
> {
    match result {
        Ok(chain) => Ok(chain_stamps(chain@)),
        Err(error) => Err(error@),
    }
}

proof fn lemma_chain_fails(
    ancestors: Seq<(Vec<u8>, FileIdentity)>,
    looks: Seq<HeldLook>,
    n: int,
)
    requires
        0 <= n <= ancestors.len(),
        opened_chain(ancestors.take(n), looks) is Err,
    ensures
        opened_chain(ancestors, looks) == opened_chain(ancestors.take(n), looks),
    decreases ancestors.len() - n,
{
    if n < ancestors.len() {
        assert(ancestors.take(n + 1).drop_last() =~= ancestors.take(n));
        lemma_chain_fails(ancestors, looks, n + 1);
    } else {
        assert(ancestors.take(n) =~= ancestors);
    }
}

fn open_chain(ancestors: &Vec<(Vec<u8>, FileIdentity)>, looks: &Vec<HeldLook>) -> (result: Result<
    Vec<DirCheckpoint>,
    AppError,
>)
    requires
        looks@.len() == ancestors@.len(),
    ensures
        chain_result(result) == opened_chain(ancestors@, looks@),
        result matches Ok(chain) ==> chain_names(chain@) == ancestor_names(ancestors@),
{
    let mut chain: Vec<DirCheckpoint> = Vec::new();
    let mut i: usize = 0;
    assert(ancestors@.take(0) =~= Seq::empty());
    assert(chain_stamps(chain@) =~= Seq::empty());
    assert(chain_names(chain@) =~= ancestor_names(ancestors@.take(0)));
    while i < ancestors.len()
        invariant
            0 <= i <= ancestors@.len(),
            looks@.len() == ancestors@.len(),
            chain_names(chain@) == ancestor_names(ancestors@.take(i as int)),
            opened_chain(ancestors@.take(i as int), looks@) == Ok::<Seq<FileStamp>, AppFault>(
                chain_stamps(chain@),
            ),
        decreases ancestors@.len() - i,
    {
        proof {
            assert(ancestors@.take(i + 1).drop_last() =~= ancestors@.take(i as int));
            assert(ancestors@.take(i + 1).last() == ancestors@[i as int]);
            if opened_chain(ancestors@.take(i + 1), looks@) is Err {
                lemma_chain_fails(ancestors@, looks@, i + 1);
            }
        }
        let parts = path::split_steps(ancestors[i].0.as_slice());
        assert(path::views(parts@).len() == parts@.len());
        if parts.len() != 1 {
            return Err(AppError::new(AppIssueCode::InvalidInput, "invalid ancestor component"));
        }
        let stamp: FileStamp = match open_seen_directory(
            &looks[i],
            ancestors[i].1,
            "open ancestor",
            "stat ancestor",
            "ancestor changed since scan",
        ) {
            Ok(stamp) => stamp,
            Err(error) => {
                return Err(error);
            },
        };
        let ghost before = chain_stamps(chain@);
        let ghost known = chain_names(chain@);
        assert(ancestor_names(ancestors@.take(i + 1)) =~= ancestor_names(
            ancestors@.take(i as int),
        ).push(ancestors@[i as int].0@));
        chain.push(
            DirCheckpoint { name: text::copy_bytes(ancestors[i].0.as_slice()), baseline: stamp },
        );
        assert(chain_stamps(chain@) =~= before.push(stamp));
        assert(chain_names(chain@) =~= known.push(ancestors@[i as int].0@));
        i += 1;
    }
    assert(ancestors@.take(ancestors@.len() as int) =~= ancestors@);
    Ok(chain)
}

pub open spec fn bundle_result(result: Result<InspectedBundle, AppError>) -> Result<
    BundleView,
    AppFault,
> {
    match result {
        Ok(bundle) => Ok(bundle@),
        Err(error) => Err(error@),
    }
}

fn open_held(location: &BundleLocation, look: &OpenLook) -> (result: Result<
    InspectedBundle,
    AppError,
>)
    requires
        look.ancestors@.len() == location.ancestors@.len(),
    ensures
        bundle_result(result) == opened(*location, *look),
{
    let root = location.root.as_slice();
    let parts = path::split(root);
    assert(path::views(parts@).len() == parts@.len());
    if !path::absolute(root) || crate::wire::find_wandering(root) || parts.len() == 0 {
        return Err(
            AppError::new(AppIssueCode::InvalidInput, "root must be a non-root absolute path"),
        );
    }
    let root_baseline: FileStamp = match open_seen_directory(
        &look.root,
        location.root_identity,
        "open root",
        "stat root",
        "root changed since scan",
    ) {
        Ok(stamp) => stamp,
        Err(error) => {
            return Err(error);
        },
    };
    let dir_chain: Vec<DirCheckpoint> = match open_chain(&location.ancestors, &look.ancestors) {
        Ok(chain) => chain,
        Err(error) => {
            return Err(error);
        },
    };
    if location.relative.len() != 0 && path::name_of(location.relative.as_slice()).is_none() {
        return Err(AppError::new(AppIssueCode::InvalidInput, "missing app bundle filename"));
    }
    let (raw, bundle_baseline): (RawStat, FileStamp) = match state(
        &look.bundle,
        "open app bundle",
        "stat app bundle",
    ) {
        Ok(pair) => pair,
        Err(error) => {
            return Err(error);
        },
    };
    if bundle_baseline.kind != ResourceKind::Directory || bundle_baseline.identity
        != location.identity {
        return Err(AppError::new(AppIssueCode::Changed, "app bundle changed since scan"));
    }
    if dataless(raw) {
        return Err(AppError::new(AppIssueCode::CloudOrDataless, "app bundle is dataless"));
    }
    let contents_baseline: FileStamp = match open_inside(
        &look.contents,
        ResourceKind::Directory,
        "open Contents",
        "stat Contents",
        "Contents changed or unavailable",
    ) {
        Ok(stamp) => stamp,
        Err(error) => {
            return Err(error);
        },
    };
    let info_baseline: FileStamp = match open_inside(
        &look.info,
        ResourceKind::File,
        "open Contents/Info.plist",
        "stat Info.plist",
        "Info.plist changed or unavailable",
    ) {
        Ok(stamp) => stamp,
        Err(error) => {
            return Err(error);
        },
    };
    Ok(
        InspectedBundle {
            root_baseline,
            dir_chain,
            bundle_baseline,
            contents_baseline,
            info_baseline,
            macos_baseline: None,
            executable_observation: None,
        },
    )
}

/// A failure, joined by another that came of ending the read-only policy.
pub open spec fn with_restore(primary: AppFault, restored: Result<(), Seq<char>>) -> AppFault {
    match restored {
        Ok(()) => primary,
        Err(text) => probe::fault(
            AppIssueCode::PolicyFailure,
            primary.message + "; "@ + restore_text(text),
        ),
    }
}

/// How a policy that could not be ended is reported.
pub open spec fn restore_text(text: Seq<char>) -> Seq<char> {
    "read-only policy restore failed: "@ + text
}

pub open spec fn restored_view(restored: Result<(), String>) -> Result<(), Seq<char>> {
    match restored {
        Ok(()) => Ok(()),
        Err(text) => Err(text@),
    }
}

pub fn add_restore(primary: AppError, restored: &Result<(), String>) -> (error: AppError)
    ensures
        error@ == with_restore(primary@, restored_view(*restored)),
{
    match restored {
        Ok(()) => primary,
        Err(text) => {
            let tail = text::concat("read-only policy restore failed: ", text.as_str());
            AppError {
                code: AppIssueCode::PolicyFailure,
                message: text::concat3(primary.message.as_str(), "; ", tail.as_str()),
                os_code: None,
            }
        },
    }
}

impl InspectedBundle {
    /// Opens a bundle that a scan has found. `entered` says whether the read-only policy
    /// came into force, and `restored` what came of ending it where opening failed.
    pub fn open(
        location: &BundleLocation,
        entered: &Result<(), String>,
        look: &OpenLook,
        restored: &Result<(), String>,
    ) -> (result: Result<InspectedBundle, AppError>)
        requires
            look.ancestors@.len() == location.ancestors@.len(),
        ensures
            bundle_result(result) == match *entered {
                Err(text) => Err(
                    probe::fault(
                        AppIssueCode::PolicyFailure,
                        "read-only policy setup failed: "@ + text@,
                    ),
                ),
                Ok(()) => match opened(*location, *look) {
                    Ok(view) => Ok(view),
                    Err(primary) => Err(with_restore(primary, restored_view(*restored))),
                },
            },
    {
        if let Err(text) = entered {
            return Err(
                AppError {
                    code: AppIssueCode::PolicyFailure,
                    message: text::concat("read-only policy setup failed: ", text.as_str()),
                    os_code: None,
                },
            );
        }
        match open_held(location, look) {
            Ok(bundle) => Ok(bundle),
            Err(primary) => Err(add_restore(primary, restored)),
        }
    }
}

} // verus!
