//! Whether a bundle stayed the same while it was looked at.

use crate::app_inventory::{AppIssueCode, PathStatus};
use crate::bundle;
use crate::bundle::{
    BundleView, DirCheckpoint, ExecutableObservation, FileStamp, HeldLook, InspectedBundle,
    IoFailure, IoKind, RawStat,
};
use crate::model::ResourceKind;
use crate::probe;
use crate::probe::{AppError, AppFault};
use crate::text;
use vstd::prelude::*;
use vstd::string::*;

verus! {

/// What came of looking a name up without following links.
pub type LeafLook = Result<RawStat, IoFailure>;

/// What is seen where the executable was, through the directory that is held open and
/// through the path.
#[derive(Debug)]
pub struct LeafLooks {
    pub held: LeafLook,
    pub remapped: LeafLook,
}

/// What is seen when a bundle is looked at again. Nothing is looked at behind the first
/// change.
#[derive(Debug)]
pub struct RecheckLook {
    pub root: HeldLook,
    pub ancestors: Vec<HeldLook>,
    pub bundle: HeldLook,
    pub contents: HeldLook,
    pub held_info: LeafLook,
    pub info: HeldLook,
    pub held_macos: LeafLook,
    pub macos: HeldLook,
    pub executable: LeafLooks,
    pub held_bundle: LeafLook,
    pub held_contents: LeafLook,
}

/// Why something is not what it was.
pub open spec fn change(
    look: HeldLook,
    baseline: FileStamp,
    local: bool,
    open: Seq<char>,
    stat: Seq<char>,
    changed: Seq<char>,
) -> Option<AppFault> {
    match look.stated(open, stat) {
        Err(found) => Some(found),
        Ok((raw, stamp)) => if stamp != baseline || (local && raw.is_dataless()) {
            Some(probe::fault(AppIssueCode::Changed, changed))
        } else {
            None
        },
    }
}

/// The first of two faults.
pub open spec fn or_then(first: Option<AppFault>, second: Option<AppFault>) -> Option<AppFault> {
    match first {
        Some(found) => Some(found),
        None => second,
    }
}

/// Why a directory between the root and the bundle is not what it was.
pub open spec fn chain_change(chain: Seq<FileStamp>, looks: Seq<HeldLook>) -> Option<AppFault>
    decreases chain.len(),
{
    if chain.len() == 0 {
        None
    } else {
        or_then(
            chain_change(chain.drop_last(), looks),
            change(
                looks[chain.len() - 1],
                chain.last(),
                true,
                "reopen ancestor"@,
                "restat ancestor"@,
                "ancestor changed during inspection"@,
            ),
        )
    }
}

/// Why an executable that was missing is not missing any more.
pub open spec fn appearance(look: LeafLook, stat: Seq<char>, changed: Seq<char>) -> Option<
    AppFault,
> {
    match look {
        Ok(_) => Some(probe::fault(AppIssueCode::Changed, changed)),
        Err(failure) => if failure.kind == IoKind::NotFound {
            None
        } else {
            Some(bundle::errno_fault(failure, stat))
        },
    }
}

/// Why something that is held open or looked up by name is not what it was.
pub open spec fn leaf_change(
    look: LeafLook,
    baseline: FileStamp,
    local: bool,
    stat: Seq<char>,
    changed: Seq<char>,
) -> Option<AppFault> {
    match look {
        Err(failure) => Some(bundle::errno_fault(failure, stat)),
        Ok(raw) => match raw.stamp() {
            Err(found) => Some(found),
            Ok(stamp) => if stamp != baseline || (local && raw.is_dataless()) {
                Some(probe::fault(AppIssueCode::Changed, changed))
            } else {
                None
            },
        },
    }
}

/// Why the executable is not what it was.
pub open spec fn executable_change(
    observation: Option<ExecutableObservation>,
    looks: LeafLooks,
) -> Option<AppFault> {
    match observation {
        None => None,
        Some(ExecutableObservation::Missing) => or_then(
            appearance(
                looks.held,
                "restat declared executable"@,
                "declared executable appeared during inspection"@,
            ),
            appearance(
                looks.remapped,
                "restat declared executable path"@,
                "declared executable path changed during inspection"@,
            ),
        ),
        Some(ExecutableObservation::Present(stamp)) => or_then(
            leaf_change(
                looks.held,
                stamp,
                true,
                "restat declared executable"@,
                "declared executable changed during inspection"@,
            ),
            leaf_change(
                looks.remapped,
                stamp,
                true,
                "restat declared executable path"@,
                "declared executable path changed during inspection"@,
            ),
        ),
    }
}

/// Why the directory of executables, or the executable, is not what it was.
pub open spec fn macos_change(view: BundleView, look: RecheckLook) -> Option<AppFault> {
    match view.macos {
        None => None,
        Some(baseline) => or_then(
            leaf_change(
                look.held_macos,
                baseline,
                true,
                "restat held Contents/MacOS"@,
                "held Contents/MacOS changed during inspection"@,
            ),
            or_then(
                change(
                    look.macos,
                    baseline,
                    true,
                    "reopen Contents/MacOS"@,
                    "restat Contents/MacOS"@,
                    "Contents/MacOS path changed during inspection"@,
                ),
                executable_change(view.executable, look.executable),
            ),
        ),
    }
}

/// Why a path to the bundle does not lead to what it led to.
pub open spec fn path_change(view: BundleView, look: RecheckLook) -> Option<AppFault> {
    or_then(
        change(
            look.root,
            view.root,
            true,
            "reopen root"@,
            "restat root"@,
            "root changed during inspection"@,
        ),
        or_then(
            chain_change(view.chain, look.ancestors@),
            or_then(
                change(
                    look.bundle,
                    view.bundle,
                    true,
                    "reopen app bundle"@,
                    "restat app bundle"@,
                    "app bundle path changed during inspection"@,
                ),
                change(
                    look.contents,
                    view.contents,
                    true,
                    "reopen Contents"@,
                    "restat Contents"@,
                    "Contents path changed during inspection"@,
                ),
            ),
        ),
    )
}

/// Why the property list is not what it was.
pub open spec fn info_change(view: BundleView, look: RecheckLook) -> Option<AppFault> {
    or_then(
        leaf_change(
            look.held_info,
            view.info,
            true,
            "restat Info.plist"@,
            "Info.plist changed during inspection"@,
        ),
        change(
            look.info,
            view.info,
            true,
            "reopen Info.plist"@,
            "restat Info.plist"@,
            "Info.plist path changed during inspection"@,
        ),
    )
}

/// Why the directories that are held open are not what they were.
pub open spec fn held_change(view: BundleView, look: RecheckLook) -> Option<AppFault> {
    or_then(
        leaf_change(
            look.held_bundle,
            view.bundle,
            false,
            "restat held bundle"@,
            "held app bundle changed during inspection"@,
        ),
        leaf_change(
            look.held_contents,
            view.contents,
            false,
            "restat held Contents"@,
            "held Contents changed during inspection"@,
        ),
    )
}

/// Why a bundle is not what it was.
pub open spec fn bundle_change(view: BundleView, look: RecheckLook) -> Option<AppFault> {
    or_then(
        path_change(view, look),
        or_then(
            info_change(view, look),
            or_then(macos_change(view, look), held_change(view, look)),
        ),
    )
}

/// A check, as the fault that it found.
pub open spec fn found_in(result: Result<(), AppError>) -> Option<AppFault> {
    match result {
        Ok(()) => None,
        Err(error) => Some(error@),
    }
}

fn same_as(
    look: &HeldLook,
    baseline: FileStamp,
    local: bool,
    open: &str,
    stat: &str,
    changed: &str,
) -> (result: Result<(), AppError>)
    ensures
        found_in(result) == change(*look, baseline, local, open@, stat@, changed@),
{
    match bundle::state(look, open, stat) {
        Err(error) => Err(error),
        Ok((raw, stamp)) => if stamp != baseline || (local && bundle::dataless(raw)) {
            Err(AppError::new(AppIssueCode::Changed, changed))
        } else {
            Ok(())
        },
    }
}

proof fn lemma_chain_change(chain: Seq<FileStamp>, looks: Seq<HeldLook>, n: int)
    requires
        0 <= n <= chain.len(),
        chain_change(chain.take(n), looks) is Some,
    ensures
        chain_change(chain, looks) == chain_change(chain.take(n), looks),
    decreases chain.len() - n,
{
    if n < chain.len() {
        assert(chain.take(n + 1).drop_last() =~= chain.take(n));
        lemma_chain_change(chain, looks, n + 1);
    } else {
        assert(chain.take(n) =~= chain);
    }
}

fn same_chain(chain: &Vec<DirCheckpoint>, looks: &Vec<HeldLook>) -> (result: Result<(), AppError>)
    requires
        looks@.len() == chain@.len(),
    ensures
        found_in(result) == chain_change(bundle::chain_stamps(chain@), looks@),
{
    let ghost stamps = bundle::chain_stamps(chain@);
    let mut i: usize = 0;
    assert(stamps.take(0) =~= Seq::empty());
    while i < chain.len()
        invariant
            0 <= i <= chain@.len(),
            looks@.len() == chain@.len(),
            stamps == bundle::chain_stamps(chain@),
            chain_change(stamps.take(i as int), looks@) is None,
        decreases chain@.len() - i,
    {
        proof {
            assert(stamps.take(i + 1).drop_last() =~= stamps.take(i as int));
            assert(stamps.take(i + 1).last() == chain@[i as int].baseline);
            if chain_change(stamps.take(i + 1), looks@) is Some {
                lemma_chain_change(stamps, looks@, i + 1);
            }
        }
        if let Err(error) = same_as(
            &looks[i],
            chain[i].baseline,
            true,
            "reopen ancestor",
            "restat ancestor",
            "ancestor changed during inspection",
        ) {
            return Err(error);
        }
        i += 1;
    }
    assert(stamps.take(stamps.len() as int) =~= stamps);
    Ok(())
}

fn still_missing(look: &LeafLook, stat: &str, changed: &str) -> (result: Result<(), AppError>)
    ensures
        found_in(result) == appearance(*look, stat@, changed@),
{
    match look {
        Ok(_) => Err(AppError::new(AppIssueCode::Changed, changed)),
        Err(failure) => match failure.kind {
            IoKind::NotFound => Ok(()),
            _ => Err(bundle::map_errno(failure, stat)),
        },
    }
}

fn same_leaf(look: &LeafLook, baseline: FileStamp, local: bool, stat: &str, changed: &str) -> (
    result: Result<(), AppError>)
    ensures
        found_in(result) == leaf_change(*look, baseline, local, stat@, changed@),
{
    match look {
        Err(failure) => Err(bundle::map_errno(failure, stat)),
        Ok(raw) => match bundle::stamp_from_stat(*raw) {
            Err(error) => Err(error),
            Ok(stamp) => if stamp != baseline || (local && bundle::dataless(*raw)) {
                Err(AppError::new(AppIssueCode::Changed, changed))
            } else {
                Ok(())
            },
        },
    }
}

fn same_executable(observation: Option<ExecutableObservation>, looks: &LeafLooks) -> (result:
    Result<(), AppError>)
    ensures
        found_in(result) == executable_change(observation, *looks),
{
    match observation {
        None => Ok(()),
        Some(ExecutableObservation::Missing) => {
            if let Err(error) = still_missing(
                &looks.held,
                "restat declared executable",
                "declared executable appeared during inspection",
            ) {
                return Err(error);
            }
            still_missing(
                &looks.remapped,
                "restat declared executable path",
                "declared executable path changed during inspection",
            )
        },
        Some(ExecutableObservation::Present(stamp)) => {
            if let Err(error) = same_leaf(
                &looks.held,
                stamp,
                true,
                "restat declared executable",
                "declared executable changed during inspection",
            ) {
                return Err(error);
            }
            same_leaf(
                &looks.remapped,
                stamp,
                true,
                "restat declared executable path",
                "declared executable path changed during inspection",
            )
        },
    }
}

/// What is seen where a bundle says that its executable is. Nothing is looked at behind
/// what decides.
#[derive(Debug)]
pub struct ExecutableLook {
    /// The directory of executables, by name.
    pub macos: LeafLook,
    /// The same directory, opened.
    pub held_macos: HeldLook,
    /// The executable, by name.
    pub leaf: LeafLook,
}

/// What a name that cannot be looked up says of the executable.
pub open spec fn unseen(failure: IoFailure, context: Seq<char>) -> Result<PathStatus, AppFault> {
    match failure.kind {
        IoKind::NotFound => Ok(PathStatus::Missing),
        IoKind::Loop => Ok(PathStatus::NotFollowedSymlink),
        _ => Err(bundle::errno_fault(failure, context)),
    }
}

/// What is found of the executable, and what is remembered of it.
pub open spec fn executable_status(view: BundleView, look: ExecutableLook) -> (
    Result<PathStatus, AppFault>,
    BundleView,
) {
    match look.macos {
        Err(failure) => (unseen(failure, "stat Contents/MacOS"@), view),
        Ok(raw) => match raw.stamp() {
            Err(found) => (Err(found), view),
            Ok(stamp) => if stamp.kind == ResourceKind::Link {
                (Ok(PathStatus::NotFollowedSymlink), view)
            } else if stamp.kind != ResourceKind::Directory || raw.is_dataless() {
                (Ok(PathStatus::PresentNonFile), view)
            } else {
                match change(
                    look.held_macos,
                    stamp,
                    true,
                    "open Contents/MacOS"@,
                    "stat Contents/MacOS"@,
                    "Contents/MacOS changed during inspection"@,
                ) {
                    Some(found) => (Err(found), view),
                    None => leaf_status(BundleView { macos: Some(stamp), ..view }, look.leaf),
                }
            },
        },
    }
}

/// What is found of the executable in its directory.
pub open spec fn leaf_status(view: BundleView, leaf: LeafLook) -> (
    Result<PathStatus, AppFault>,
    BundleView,
) {
    match leaf {
        Err(failure) => (
            unseen(failure, "stat declared executable"@),
            if failure.kind == IoKind::NotFound {
                BundleView { executable: Some(ExecutableObservation::Missing), ..view }
            } else {
                view
            },
        ),
        Ok(raw) => match raw.stamp() {
            Err(found) => (Err(found), view),
            Ok(stamp) => (
                Ok(
                    match stamp.kind {
                        ResourceKind::File => PathStatus::PresentFile,
                        ResourceKind::Link => PathStatus::NotFollowedSymlink,
                        _ => PathStatus::PresentNonFile,
                    },
                ),
                BundleView { executable: Some(ExecutableObservation::Present(stamp)), ..view },
            ),
        },
    }
}

pub open spec fn status_result(result: Result<PathStatus, AppError>) -> Result<
    PathStatus,
    AppFault,
> {
    match result {
        Ok(status) => Ok(status),
        Err(error) => Err(error@),
    }
}

fn report_unseen(failure: &IoFailure, context: &str) -> (result: Result<PathStatus, AppError>)
    ensures
        status_result(result) == unseen(*failure, context@),
{
    match failure.kind {
        IoKind::NotFound => Ok(PathStatus::Missing),
        IoKind::Loop => Ok(PathStatus::NotFollowedSymlink),
        _ => Err(bundle::map_errno(failure, context)),
    }
}

/// What ending an inspection comes to.
pub open spec fn finish_fault(
    validation: Option<AppFault>,
    restored: Result<(), Seq<char>>,
) -> Option<AppFault> {
    match (validation, restored) {
        (None, Ok(())) => None,
        (Some(found), _) => Some(bundle::with_restore(found, restored)),
        (None, Err(text)) => Some(
            probe::fault(AppIssueCode::PolicyFailure, bundle::restore_text(text)),
        ),
    }
}

impl InspectedBundle {
    /// Looks whether the bundle is what it was.
    pub fn check_unchanged(&self, look: &RecheckLook) -> (result: Result<(), AppError>)
        requires
            look.ancestors@.len() == self.dir_chain@.len(),
        ensures
            found_in(result) == bundle_change(self@, *look),
    {
        if let Err(error) = self.same_paths(look) {
            return Err(error);
        }
        if let Err(error) = self.same_info(look) {
            return Err(error);
        }
        if let Err(error) = self.same_macos(look) {
            return Err(error);
        }
        if let Err(error) = same_leaf(
            &look.held_bundle,
            self.bundle_baseline,
            false,
            "restat held bundle",
            "held app bundle changed during inspection",
        ) {
            return Err(error);
        }
        same_leaf(
            &look.held_contents,
            self.contents_baseline,
            false,
            "restat held Contents",
            "held Contents changed during inspection",
        )
    }

    fn same_paths(&self, look: &RecheckLook) -> (result: Result<(), AppError>)
        requires
            look.ancestors@.len() == self.dir_chain@.len(),
        ensures
            found_in(result) == path_change(self@, *look),
    {
        if let Err(error) = same_as(
            &look.root,
            self.root_baseline,
            true,
            "reopen root",
            "restat root",
            "root changed during inspection",
        ) {
            return Err(error);
        }
        if let Err(error) = same_chain(&self.dir_chain, &look.ancestors) {
            return Err(error);
        }
        if let Err(error) = same_as(
            &look.bundle,
            self.bundle_baseline,
            true,
            "reopen app bundle",
            "restat app bundle",
            "app bundle path changed during inspection",
        ) {
            return Err(error);
        }
        same_as(
            &look.contents,
            self.contents_baseline,
            true,
            "reopen Contents",
            "restat Contents",
            "Contents path changed during inspection",
        )
    }

    fn same_info(&self, look: &RecheckLook) -> (result: Result<(), AppError>)
        ensures
            found_in(result) == info_change(self@, *look),
    {
        if let Err(error) = same_leaf(
            &look.held_info,
            self.info_baseline,
            true,
            "restat Info.plist",
            "Info.plist changed during inspection",
        ) {
            return Err(error);
        }
        same_as(
            &look.info,
            self.info_baseline,
            true,
            "reopen Info.plist",
            "restat Info.plist",
            "Info.plist path changed during inspection",
        )
    }

    fn same_macos(&self, look: &RecheckLook) -> (result: Result<(), AppError>)
        ensures
            found_in(result) == macos_change(self@, *look),
    {
        let baseline: FileStamp = match self.macos_baseline {
            None => {
                return Ok(());
            },
            Some(baseline) => baseline,
        };
        if let Err(error) = same_leaf(
            &look.held_macos,
            baseline,
            true,
            "restat held Contents/MacOS",
            "held Contents/MacOS changed during inspection",
        ) {
            return Err(error);
        }
        if let Err(error) = same_as(
            &look.macos,
            baseline,
            true,
            "reopen Contents/MacOS",
            "restat Contents/MacOS",
            "Contents/MacOS path changed during inspection",
        ) {
            return Err(error);
        }
        same_executable(self.executable_observation, &look.executable)
    }

    /// Looks for the executable that the bundle declares.
    pub fn stat_executable(&mut self, look: &ExecutableLook) -> (result: Result<
        PathStatus,
        AppError,
    >)
        ensures
            (status_result(result), final(self)@) == executable_status(old(self)@, *look),
            final(self).dir_chain == old(self).dir_chain,
    {
        let raw: RawStat = match &look.macos {
            Err(failure) => {
                return report_unseen(failure, "stat Contents/MacOS");
            },
            Ok(raw) => *raw,
        };
        let stamp: FileStamp = match bundle::stamp_from_stat(raw) {
            Ok(stamp) => stamp,
            Err(error) => {
                return Err(error);
            },
        };
        if stamp.kind == ResourceKind::Link {
            return Ok(PathStatus::NotFollowedSymlink);
        }
        if stamp.kind != ResourceKind::Directory || bundle::dataless(raw) {
            return Ok(PathStatus::PresentNonFile);
        }
        if let Err(error) = same_as(
            &look.held_macos,
            stamp,
            true,
            "open Contents/MacOS",
            "stat Contents/MacOS",
            "Contents/MacOS changed during inspection",
        ) {
            return Err(error);
        }
        self.macos_baseline = Some(stamp);
        let leaf: RawStat = match &look.leaf {
            Err(failure) => {
                if failure.kind == IoKind::NotFound {
                    self.executable_observation = Some(ExecutableObservation::Missing);
                }
                return report_unseen(failure, "stat declared executable");
            },
            Ok(leaf) => *leaf,
        };
        let leaf_stamp: FileStamp = match bundle::stamp_from_stat(leaf) {
            Ok(leaf_stamp) => leaf_stamp,
            Err(error) => {
                return Err(error);
            },
        };
        self.executable_observation = Some(ExecutableObservation::Present(leaf_stamp));
        Ok(
            match leaf_stamp.kind {
                ResourceKind::File => PathStatus::PresentFile,
                ResourceKind::Link => PathStatus::NotFollowedSymlink,
                _ => PathStatus::PresentNonFile,
            },
        )
    }

    /// Ends the inspection. `restored` says what came of ending the read-only policy.
    pub fn finish(self, look: &RecheckLook, restored: &Result<(), String>) -> (result: Result<
        (),
        AppError,
    >)
        requires
            look.ancestors@.len() == self.dir_chain@.len(),
        ensures
            found_in(result) == finish_fault(
                bundle_change(self@, *look),
                bundle::restored_view(*restored),
            ),
    {
        match self.check_unchanged(look) {
            Err(error) => Err(bundle::add_restore(error, restored)),
            Ok(()) => match restored {
                Ok(()) => Ok(()),
                Err(text) => Err(
                    AppError {
                        code: AppIssueCode::PolicyFailure,
                        message: text::concat("read-only policy restore failed: ", text.as_str()),
                        os_code: None,
                    },
                ),
            },
        }
    }
}

/// A bundle that is found unchanged is, in every part that was held, the one that was
/// opened: the object at the bundle's path and the object that is held open both still are
/// what they were.
pub proof fn unchanged_bundle_is_the_same(view: BundleView, look: RecheckLook)
    requires
        bundle_change(view, look) is None,
        look.ancestors@.len() == view.chain.len(),
    ensures
        look.root matches HeldLook::Held(raw) && raw.stamp() == Ok::<FileStamp, AppFault>(view.root),
        look.bundle matches HeldLook::Held(raw) && raw.stamp() == Ok::<FileStamp, AppFault>(
            view.bundle,
        ),
        look.held_bundle matches Ok(raw) && raw.stamp() == Ok::<FileStamp, AppFault>(
            view.bundle,
        ),
        look.contents matches HeldLook::Held(raw) && raw.stamp() == Ok::<FileStamp, AppFault>(
            view.contents,
        ),
        look.held_contents matches Ok(raw) && raw.stamp() == Ok::<FileStamp, AppFault>(
            view.contents,
        ),
        look.info matches HeldLook::Held(raw) && raw.stamp() == Ok::<FileStamp, AppFault>(view.info),
        look.held_info matches Ok(raw) && raw.stamp() == Ok::<FileStamp, AppFault>(
            view.info,
        ),
        forall|i: int|
            0 <= i < view.chain.len() ==> (#[trigger] look.ancestors@[i] matches HeldLook::Held(raw)
                && raw.stamp() == Ok::<FileStamp, AppFault>(view.chain[i])),
        view.macos is Some && view.executable == Some(ExecutableObservation::Missing)
            ==> look.executable.held is Err && look.executable.remapped is Err,
{
    lemma_chain_same(view.chain, look.ancestors@);
}

proof fn lemma_chain_same(chain: Seq<FileStamp>, looks: Seq<HeldLook>)
    requires
        chain_change(chain, looks) is None,
        looks.len() >= chain.len(),
    ensures
        forall|i: int|
            0 <= i < chain.len() ==> (#[trigger] looks[i] matches HeldLook::Held(raw) && raw.stamp()
                == Ok::<FileStamp, AppFault>(chain[i])),
    decreases chain.len(),
{
    if chain.len() > 0 {
        lemma_chain_same(chain.drop_last(), looks);
        assert forall|i: int| 0 <= i < chain.len() implies (#[trigger] looks[i] matches HeldLook::Held(raw)
            && raw.stamp() == Ok::<FileStamp, AppFault>(chain[i])) by {
            if i < chain.len() - 1 {
                assert(chain.drop_last()[i] == chain[i]);
            }
        }
    }
}

} // verus!
