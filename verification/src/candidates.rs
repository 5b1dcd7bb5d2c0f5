//! Which of the things a scan found are applications to look at.

use crate::app_inventory::{AppIssueCode, ScanEntry};
use crate::bundle::BundleLocation;
use crate::model::{FileIdentity, ResourceKind};
use crate::path;
use crate::probe;
use crate::probe::{AppError, AppFault, ProbeContext};
use crate::text;
use crate::unicode;
use vstd::prelude::*;
use vstd::string::*;
use vstd::utf8;

verus! {

/// One thing that a scan found.
#[verifier::ext_equal]
pub struct EntryView {
    pub path: Seq<u8>,
    pub kind: ResourceKind,
    pub identity: FileIdentity,
}

impl View for ScanEntry {
    type V = EntryView;

    open spec fn view(&self) -> EntryView {
        EntryView { path: self.path@, kind: self.kind, identity: self.identity }
    }
}

pub open spec fn entry_views(entries: Seq<ScanEntry>) -> Seq<EntryView> {
    Seq::new(entries.len(), |i: int| entries[i]@)
}

/// Whether a path lies at, above or below one of the excluded paths.
pub open spec fn overlaps_any(place: Seq<u8>, excludes: Seq<Seq<u8>>) -> bool {
    exists|i: int| 0 <= i < excludes.len() && #[trigger] path::overlap(place, excludes[i])
}

/// Whether an object was seen at an excluded path.
pub open spec fn identity_excluded(
    identity: FileIdentity,
    entries: Seq<EntryView>,
    excludes: Seq<Seq<u8>>,
) -> bool {
    exists|i: int|
        0 <= i < entries.len() && (#[trigger] entries[i]).identity == identity && overlaps_any(
            entries[i].path,
            excludes,
        )
}

/// Whether an entry is excluded, by its path or by another path of the same object.
pub open spec fn excluded(
    entry: EntryView,
    entries: Seq<EntryView>,
    excludes: Seq<Seq<u8>>,
) -> bool {
    overlaps_any(entry.path, excludes) || identity_excluded(entry.identity, entries, excludes)
}

fn meets_any(place: &[u8], excludes: &Vec<Vec<u8>>) -> (answer: bool)
    ensures
        answer == overlaps_any(place@, path::views(excludes@)),
{
    let mut i: usize = 0;
    while i < excludes.len()
        invariant
            0 <= i <= excludes@.len(),
            forall|j: int|
                0 <= j < i ==> !#[trigger] path::overlap(place@, path::views(excludes@)[j]),
        decreases excludes@.len() - i,
    {
        if path::overlaps(place, excludes[i].as_slice()) {
            assert(path::overlap(place@, path::views(excludes@)[i as int]));
            return true;
        }
        i += 1;
    }
    false
}

/// Whether a list holds an identity.
pub fn holds_identity(list: &Vec<FileIdentity>, identity: FileIdentity) -> (held: bool)
    ensures
        held == list@.contains(identity),
{
    let mut i: usize = 0;
    while i < list.len()
        invariant
            0 <= i <= list@.len(),
            forall|j: int| 0 <= j < i ==> list@[j] != identity,
        decreases list@.len() - i,
    {
        if list[i] == identity {
            return true;
        }
        i += 1;
    }
    false
}

/// The identities of everything at an excluded path, each once, and how many entries were
/// looked at for them.
pub fn collect_excluded_identities(
    entries: &Vec<ScanEntry>,
    excludes: &Vec<Vec<u8>>,
    context: &ProbeContext<'_>,
) -> (result: Result<(Vec<FileIdentity>, usize), AppError>)
    ensures
        match result {
            Ok((list, scanned)) => {
                &&& scanned == entries@.len()
                &&& list@.no_duplicates()
                &&& forall|identity: FileIdentity| #[trigger]
                    list@.contains(identity) == identity_excluded(
                        identity,
                        entry_views(entries@),
                        path::views(excludes@),
                    )
            },
            Err(_) => context.stopped(result) && entries@.len() > 0,
        },
{
    let ghost all = entry_views(entries@);
    let ghost places = path::views(excludes@);
    let mut list: Vec<FileIdentity> = Vec::new();
    let mut i: usize = 0;
    while i < entries.len()
        invariant
            0 <= i <= entries@.len(),
            all == entry_views(entries@),
            places == path::views(excludes@),
            list@.no_duplicates(),
            forall|identity: FileIdentity| #[trigger]
                list@.contains(identity) == identity_excluded(identity, all.take(i as int), places),
        decreases entries@.len() - i,
    {
        if i % 256 == 0 {
            if let Err(error) = context.check() {
                return Err(error);
            }
        }
        let ghost before = list@;
        let ghost next = all.take(i + 1);
        let met = meets_any(entries[i].path.as_slice(), excludes);
        let identity: FileIdentity = entries[i].identity;
        let add: bool = met && !holds_identity(&list, identity);
        if add {
            list.push(identity);
        }
        proof {
            assert forall|other: FileIdentity| #[trigger]
                list@.contains(other) == identity_excluded(other, next, places) by {
                if add {
                    assert(list@ == before.push(identity));
                    assert(before.push(identity)[before.len() as int] == identity);
                    if before.contains(other) {
                        let k = choose|k: int| 0 <= k < before.len() && before[k] == other;
                        assert(list@[k] == other);
                    }
                }
                if before.contains(other) {
                    assert(identity_excluded(other, all.take(i as int), places));
                    let k = choose|k: int|
                        0 <= k < i && (#[trigger] all.take(i as int)[k]).identity == other
                            && overlaps_any(all.take(i as int)[k].path, places);
                    assert(next[k] == all.take(i as int)[k]);
                }
                if identity_excluded(other, next, places) {
                    let k = choose|k: int|
                        0 <= k < next.len() && (#[trigger] next[k]).identity == other
                            && overlaps_any(next[k].path, places);
                    if k < i {
                        assert(all.take(i as int)[k] == next[k]);
                        assert(before.contains(other));
                    } else {
                        assert(next[k] == entries@[i as int]@);
                    }
                }
                if met && other == identity {
                    assert(next[i as int] == entries@[i as int]@);
                }
            }
        }
        i += 1;
    }
    assert(all.take(all.len() as int) =~= all);
    Ok((list, i))
}

/// What is excluded from an inventory.
#[derive(Debug)]
pub struct ExclusionMatcher {
    pub excludes: Vec<Vec<u8>>,
    pub excluded_identities: Vec<FileIdentity>,
}

impl ExclusionMatcher {
    /// Whether this is what the excluded paths come to, given what a scan found.
    pub open spec fn matches_scan(self, entries: Seq<EntryView>, excludes: Seq<Seq<u8>>) -> bool {
        &&& path::views(self.excludes@) == excludes
        &&& forall|identity: FileIdentity| #[trigger]
            self.excluded_identities@.contains(identity) == identity_excluded(
                identity,
                entries,
                excludes,
            )
    }

    pub fn build(
        entries: &Vec<ScanEntry>,
        excludes: &Vec<Vec<u8>>,
        context: &ProbeContext<'_>,
    ) -> (result: Result<ExclusionMatcher, AppError>)
        ensures
            match result {
                Ok(matcher) => matcher.matches_scan(
                    entry_views(entries@),
                    path::views(excludes@),
                ),
                Err(_) => context.stopped(result) && excludes@.len() > 0 && entries@.len() > 0,
            },
    {
        if excludes.len() == 0 {
            let matcher = ExclusionMatcher {
                excludes: Vec::new(),
                excluded_identities: Vec::new(),
            };
            assert(path::views(matcher.excludes@) =~= path::views(excludes@));
            return Ok(matcher);
        }
        match collect_excluded_identities(entries, excludes, context) {
            Ok((excluded_identities, _)) => Ok(
                ExclusionMatcher { excludes: copy_paths(excludes), excluded_identities },
            ),
            Err(error) => Err(error),
        }
    }

    /// Whether an entry is excluded.
    pub fn contains(&self, entry: &ScanEntry) -> (answer: bool)
        ensures
            answer == (overlaps_any(entry@.path, path::views(self.excludes@))
                || self.excluded_identities@.contains(entry@.identity)),
    {
        meets_any(entry.path.as_slice(), &self.excludes) || holds_identity(
            &self.excluded_identities,
            entry.identity,
        )
    }
}

/// A copy of a list of paths.
pub fn copy_paths(list: &Vec<Vec<u8>>) -> (copy: Vec<Vec<u8>>)
    ensures
        path::views(copy@) == path::views(list@),
{
    let mut copy: Vec<Vec<u8>> = Vec::new();
    let mut i: usize = 0;
    while i < list.len()
        invariant
            0 <= i <= list@.len(),
            copy@.len() == i,
            forall|j: int| 0 <= j < i ==> (#[trigger] copy@[j])@ == list@[j]@,
        decreases list@.len() - i,
    {
        copy.push(text::copy_bytes(list[i].as_slice()));
        i += 1;
    }
    assert(path::views(copy@) =~= path::views(list@));
    copy
}

/// Whether a path is named like an application bundle.
pub open spec fn named_like_app(place: Seq<u8>) -> bool {
    match path::file_name(place) {
        None => false,
        Some(name) => unicode::utf8_text(name) is Some && has_suffix(
            name,
            utf8::encode_utf8(".app"@),
        ),
    }
}

/// Whether `whole` ends with `suffix`.
pub open spec fn has_suffix<A>(whole: Seq<A>, suffix: Seq<A>) -> bool {
    suffix.len() <= whole.len() && whole.skip(whole.len() - suffix.len()) == suffix
}

/// Whether a path is named like an application bundle.
pub fn is_app_candidate(place: &[u8]) -> (answer: bool)
    ensures
        answer == named_like_app(place@),
{
    match path::name_of(place) {
        None => false,
        Some(name) => {
            let suffix = ".app".as_bytes();
            if unicode::from_utf8(name.as_slice()).is_none() || suffix.len() > name.len() {
                return false;
            }
            let tail = text::slice_bytes(name.as_slice(), name.len() - suffix.len(), name.len());
            assert(tail@ =~= name@.skip(name@.len() - suffix@.len()));
            text::bytes_eq(tail.as_slice(), suffix)
        },
    }
}

/// Whether a path holds the text that the user asked for, ASCII case aside.
pub open spec fn passes_filter(place: Seq<u8>, filter: Seq<char>) -> bool {
    unicode::occurs(
        unicode::ascii_lower(unicode::lossy_text(place)),
        unicode::ascii_lower(filter),
    )
}

/// Whether a path holds the text that the user asked for, ASCII case aside.
pub fn matches_filter(place: &[u8], filter: &str) -> (answer: bool)
    ensures
        answer == passes_filter(place@, filter@),
{
    let shown = unicode::from_utf8_lossy(place);
    unicode::occurs_ignoring_case(shown.as_str(), filter)
}

/// Whether an entry is an application to look at.
pub open spec fn is_candidate(
    entry: EntryView,
    entries: Seq<EntryView>,
    filter: Seq<char>,
    excludes: Seq<Seq<u8>>,
) -> bool {
    &&& entry.kind == ResourceKind::Directory
    &&& named_like_app(entry.path)
    &&& filter.len() == 0 || passes_filter(entry.path, filter)
    &&& !excluded(entry, entries, excludes)
}

/// The places of the applications to look at among the first entries.
pub open spec fn candidate_places(
    entries: Seq<EntryView>,
    filter: Seq<char>,
    excludes: Seq<Seq<u8>>,
    upto: int,
) -> Seq<int>
    decreases upto,
{
    if upto <= 0 {
        Seq::empty()
    } else {
        let before = candidate_places(entries, filter, excludes, upto - 1);
        if is_candidate(entries[upto - 1], entries, filter, excludes) {
            before.push(upto - 1)
        } else {
            before
        }
    }
}

proof fn lemma_places_grow(
    entries: Seq<EntryView>,
    filter: Seq<char>,
    excludes: Seq<Seq<u8>>,
    from: int,
    upto: int,
)
    requires
        0 <= from <= upto,
    ensures
        candidate_places(entries, filter, excludes, from).len() <= candidate_places(
            entries,
            filter,
            excludes,
            upto,
        ).len(),
        candidate_places(entries, filter, excludes, upto).take(
            candidate_places(entries, filter, excludes, from).len() as int,
        ) == candidate_places(entries, filter, excludes, from),
    decreases upto - from,
{
    let small = candidate_places(entries, filter, excludes, from);
    let large = candidate_places(entries, filter, excludes, upto);
    if from < upto {
        lemma_places_grow(entries, filter, excludes, from, upto - 1);
        let middle = candidate_places(entries, filter, excludes, upto - 1);
        assert(large.take(small.len() as int) =~= middle.take(small.len() as int));
    } else {
        assert(large.take(small.len() as int) =~= small);
    }
}

/// The places of a list.
pub open spec fn as_places(list: Seq<usize>) -> Seq<int> {
    Seq::new(list.len(), |i: int| list[i] as int)
}

/// The applications to look at, at most so many, and whether there were more.
pub fn select_candidates(
    entries: &Vec<ScanEntry>,
    filter: &str,
    exclusions: &ExclusionMatcher,
    limit: usize,
) -> (result: (Vec<usize>, bool))
    requires
        exclusions.matches_scan(entry_views(entries@), path::views(exclusions.excludes@)),
    ensures
        ({
            let all = candidate_places(
                entry_views(entries@),
                filter@,
                path::views(exclusions.excludes@),
                entries@.len() as int,
            );
            &&& result.1 == (all.len() > limit)
            &&& as_places(result.0@) == if all.len() > limit {
                all.take(limit as int)
            } else {
                all
            }
        }),
        forall|i: int| 0 <= i < result.0@.len() ==> #[trigger] result.0@[i] < entries@.len(),
        result.0@.len() <= entries@.len(),
        result.1 ==> result.0@.len() < entries@.len(),
{
    let ghost views = entry_views(entries@);
    let ghost excludes = path::views(exclusions.excludes@);
    let unfiltered: bool = filter.is_empty();
    assert(unfiltered == (filter@.len() == 0));
    let mut list: Vec<usize> = Vec::new();
    let mut i: usize = 0;
    assert(as_places(list@) =~= Seq::empty());
    while i < entries.len()
        invariant
            0 <= i <= entries@.len(),
            views == entry_views(entries@),
            excludes == path::views(exclusions.excludes@),
            exclusions.matches_scan(views, excludes),
            unfiltered == (filter@.len() == 0),
            list@.len() <= limit,
            list@.len() <= i,
            as_places(list@) == candidate_places(views, filter@, excludes, i as int),
            forall|j: int| 0 <= j < list@.len() ==> #[trigger] list@[j] < entries@.len(),
        decreases entries@.len() - i,
    {
        let entry = &entries[i];
        assert(views[i as int] == entry@);
        if entry.kind == ResourceKind::Directory && is_app_candidate(entry.path.as_slice()) && (
        unfiltered || matches_filter(entry.path.as_slice(), filter)) && !exclusions.contains(entry) {
            assert(is_candidate(entry@, views, filter@, excludes));
            if list.len() >= limit {
                proof {
                    lemma_places_grow(views, filter@, excludes, i + 1, entries@.len() as int);
                    let all = candidate_places(views, filter@, excludes, entries@.len() as int);
                    let here = candidate_places(views, filter@, excludes, i + 1);
                    assert(all.take(limit as int) =~= all.take(here.len() as int).take(
                        limit as int,
                    ));
                    assert(here.take(limit as int) =~= as_places(list@));
                }
                return (list, true);
            }
            let ghost before = as_places(list@);
            list.push(i);
            assert(as_places(list@) =~= before.push(i as int));
        }
        i += 1;
    }
    (list, false)
}

/// The last entry at a path.
pub open spec fn entry_at(entries: Seq<EntryView>, place: Seq<u8>) -> Option<EntryView>
    decreases entries.len(),
{
    if entries.len() == 0 {
        None
    } else if path::same_path(entries.last().path, place) {
        Some(entries.last())
    } else {
        entry_at(entries.drop_last(), place)
    }
}

fn find_entry(entries: &Vec<ScanEntry>, place: &[u8]) -> (found: Option<usize>)
    ensures
        match found {
            Some(at) => at < entries@.len() && entry_at(entry_views(entries@), place@) == Some(
                entries@[at as int]@,
            ),
            None => entry_at(entry_views(entries@), place@) is None,
        },
{
    let ghost all = entry_views(entries@);
    let mut i: usize = entries.len();
    assert(all.take(all.len() as int) =~= all);
    while i > 0
        invariant
            0 <= i <= entries@.len(),
            all == entry_views(entries@),
            entry_at(all, place@) == entry_at(all.take(i as int), place@),
        decreases i,
    {
        assert(all.take(i as int).drop_last() =~= all.take(i - 1));
        assert(all.take(i as int).last() == entries@[i - 1]@);
        if path::paths_equal(entries[i - 1].path.as_slice(), place) {
            return Some(i - 1);
        }
        i -= 1;
    }
    None
}

/// A root that the scan saw, with its identity.
pub type Root = (Vec<u8>, FileIdentity);

pub open spec fn root_views(roots: Seq<Root>) -> Seq<(Seq<u8>, FileIdentity)> {
    Seq::new(roots.len(), |i: int| (roots[i].0@, roots[i].1))
}

/// Whether a root is listed.
pub open spec fn lists_root(roots: Seq<(Seq<u8>, FileIdentity)>, place: Seq<u8>) -> bool {
    exists|i: int| 0 <= i < roots.len() && path::same_path((#[trigger] roots[i]).0, place)
}

/// The roots that the scan saw as directories, each once.
pub open spec fn known_roots(entries: Seq<EntryView>, roots: Seq<Seq<u8>>) -> Seq<
    (Seq<u8>, FileIdentity),
>
    decreases roots.len(),
{
    if roots.len() == 0 {
        Seq::empty()
    } else {
        let before = known_roots(entries, roots.drop_last());
        match entry_at(entries, roots.last()) {
            Some(entry) if entry.kind == ResourceKind::Directory && !lists_root(
                before,
                roots.last(),
            ) => before.push((roots.last(), entry.identity)),
            _ => before,
        }
    }
}

/// The roots that the scan saw as directories, each once.
pub fn root_identities(entries: &Vec<ScanEntry>, roots: &Vec<Vec<u8>>) -> (result: Vec<Root>)
    ensures
        root_views(result@) == known_roots(entry_views(entries@), path::views(roots@)),
{
    let ghost all = path::views(roots@);
    let ghost views = entry_views(entries@);
    let mut result: Vec<Root> = Vec::new();
    let mut i: usize = 0;
    assert(all.take(0) =~= Seq::empty());
    assert(root_views(result@) =~= Seq::empty());
    while i < roots.len()
        invariant
            0 <= i <= roots@.len(),
            all == path::views(roots@),
            views == entry_views(entries@),
            root_views(result@) == known_roots(views, all.take(i as int)),
        decreases roots@.len() - i,
    {
        assert(all.take(i + 1).drop_last() =~= all.take(i as int));
        assert(all.take(i + 1).last() == roots@[i as int]@);
        if let Some(at) = find_entry(entries, roots[i].as_slice()) {
            if entries[at].kind == ResourceKind::Directory && !has_root(
                &result,
                roots[i].as_slice(),
            ) {
                let ghost before = root_views(result@);
                let identity: FileIdentity = entries[at].identity;
                result.push((text::copy_bytes(roots[i].as_slice()), identity));
                assert(root_views(result@) =~= before.push((roots@[i as int]@, identity)));
            }
        }
        i += 1;
    }
    assert(all.take(all.len() as int) =~= all);
    result
}

fn has_root(roots: &Vec<Root>, place: &[u8]) -> (held: bool)
    ensures
        held == lists_root(root_views(roots@), place@),
{
    let ghost views = root_views(roots@);
    let mut i: usize = 0;
    while i < roots.len()
        invariant
            0 <= i <= roots@.len(),
            views == root_views(roots@),
            forall|j: int| 0 <= j < i ==> !path::same_path((#[trigger] views[j]).0, place@),
        decreases roots@.len() - i,
    {
        if path::paths_equal(roots[i].0.as_slice(), place) {
            assert(path::same_path(views[i as int].0, place@));
            return true;
        }
        i += 1;
    }
    false
}

/// The root that holds a path most closely: the longest one.
pub open spec fn closest_root(roots: Seq<(Seq<u8>, FileIdentity)>, place: Seq<u8>) -> Option<
    (Seq<u8>, FileIdentity),
>
    decreases roots.len(),
{
    if roots.len() == 0 {
        None
    } else {
        let before = closest_root(roots.drop_last(), place);
        if !path::is_within(place, roots.last().0) {
            before
        } else {
            match before {
                Some(other) if other.0.len() > roots.last().0.len() => before,
                _ => Some(roots.last()),
            }
        }
    }
}

/// The root that holds a path most closely: the longest one.
pub fn explicit_root_for_path(roots: &Vec<Root>, place: &[u8]) -> (found: Option<usize>)
    ensures
        match found {
            Some(at) => at < roots@.len() && closest_root(root_views(roots@), place@) == Some(
                (roots@[at as int].0@, roots@[at as int].1),
            ),
            None => closest_root(root_views(roots@), place@) is None,
        },
{
    let ghost views = root_views(roots@);
    let mut found: Option<usize> = None;
    let mut i: usize = 0;
    assert(views.take(0) =~= Seq::empty());
    while i < roots.len()
        invariant
            0 <= i <= roots@.len(),
            views == root_views(roots@),
            match found {
                Some(at) => at < roots@.len() && closest_root(views.take(i as int), place@) == Some(
                    (roots@[at as int].0@, roots@[at as int].1),
                ),
                None => closest_root(views.take(i as int), place@) is None,
            },
        decreases roots@.len() - i,
    {
        assert(views.take(i + 1).drop_last() =~= views.take(i as int));
        assert(views.take(i + 1).last() == (roots@[i as int].0@, roots@[i as int].1));
        if path::within(place, roots[i].0.as_slice()) {
            let longer: bool = match found {
                Some(at) => roots[at].0.len() > roots[i].0.len(),
                None => false,
            };
            if !longer {
                found = Some(i);
            }
        }
        i += 1;
    }
    assert(views.take(views.len() as int) =~= views);
    found
}

/// A list of paths with one more, after those that are no longer.
pub open spec fn inserted_by_length(list: Seq<Seq<u8>>, place: Seq<u8>) -> Seq<Seq<u8>>
    decreases list.len(),
{
    if list.len() == 0 || list.last().len() <= place.len() {
        list.push(place)
    } else {
        inserted_by_length(list.drop_last(), place).push(list.last())
    }
}

/// The roots that hold a path, the shortest first.
pub open spec fn roots_holding(roots: Seq<(Seq<u8>, FileIdentity)>, place: Seq<u8>) -> Seq<Seq<u8>>
    decreases roots.len(),
{
    if roots.len() == 0 {
        Seq::empty()
    } else {
        let before = roots_holding(roots.drop_last(), place);
        if path::is_within(place, roots.last().0) {
            inserted_by_length(before, roots.last().0)
        } else {
            before
        }
    }
}

proof fn lemma_insert_at(list: Seq<Seq<u8>>, place: Seq<u8>, at: int)
    requires
        0 <= at <= list.len(),
        forall|i: int| at <= i < list.len() ==> (#[trigger] list[i]).len() > place.len(),
        at > 0 ==> list[at - 1].len() <= place.len(),
    ensures
        inserted_by_length(list, place) == list.take(at).push(place) + list.skip(at),
    decreases list.len(),
{
    if at == list.len() {
        assert(list.take(at) =~= list);
        assert(list.take(at).push(place) + list.skip(at) =~= list.push(place));
    } else {
        assert(list[list.len() - 1].len() > place.len());
        let shorter = list.drop_last();
        assert forall|i: int| at <= i < shorter.len() implies (#[trigger] shorter[i]).len()
            > place.len() by {
            assert(shorter[i] == list[i]);
        }
        lemma_insert_at(shorter, place, at);
        assert(shorter.take(at) =~= list.take(at));
        assert((shorter.take(at).push(place) + shorter.skip(at)).push(list.last()) =~= list.take(
            at,
        ).push(place) + list.skip(at));
    }
}

pub fn insert_by_length(list: &mut Vec<Vec<u8>>, place: Vec<u8>)
    ensures
        path::views(final(list)@) == inserted_by_length(path::views(old(list)@), place@),
{
    let ghost before = path::views(list@);
    let mut at: usize = list.len();
    while at > 0 && list[at - 1].len() > place.len()
        invariant
            0 <= at <= list@.len(),
            before == path::views(list@),
            forall|i: int| at <= i < before.len() ==> (#[trigger] before[i]).len() > place@.len(),
        decreases at,
    {
        assert(before[at - 1] == list@[at - 1]@);
        at -= 1;
    }
    proof {
        if at > 0 {
            assert(before[at - 1] == list@[at - 1]@);
        }
        lemma_insert_at(before, place@, at as int);
    }
    let ghost view = place@;
    list.insert(at, place);
    assert(path::views(list@) =~= before.take(at as int).push(view) + before.skip(at as int));
}

/// The roots that hold a path, the shortest first.
pub fn roots_for_path(roots: &Vec<Root>, place: &[u8]) -> (result: Vec<Vec<u8>>)
    ensures
        path::views(result@) == roots_holding(root_views(roots@), place@),
{
    let ghost views = root_views(roots@);
    let mut result: Vec<Vec<u8>> = Vec::new();
    let mut i: usize = 0;
    assert(views.take(0) =~= Seq::empty());
    assert(path::views(result@) =~= Seq::empty());
    while i < roots.len()
        invariant
            0 <= i <= roots@.len(),
            views == root_views(roots@),
            path::views(result@) == roots_holding(views.take(i as int), place@),
        decreases roots@.len() - i,
    {
        assert(views.take(i + 1).drop_last() =~= views.take(i as int));
        assert(views.take(i + 1).last() == (roots@[i as int].0@, roots@[i as int].1));
        if path::within(place, roots[i].0.as_slice()) {
            insert_by_length(&mut result, text::copy_bytes(roots[i].0.as_slice()));
        }
        i += 1;
    }
    assert(views.take(views.len() as int) =~= views);
    result
}

/// The directories on the way down from a root, as the scan saw them.
pub open spec fn seen_on_the_way(
    entries: Seq<EntryView>,
    root: Seq<u8>,
    names: Seq<Seq<u8>>,
) -> Option<Seq<(Seq<u8>, FileIdentity)>>
    decreases names.len(),
{
    if names.len() == 0 {
        Some(Seq::empty())
    } else {
        match seen_on_the_way(entries, root, names.drop_last()) {
            None => None,
            Some(before) => if !path::is_name(names.last()) {
                None
            } else {
                match entry_at(entries, down(root, names)) {
                    Some(entry) if entry.kind == ResourceKind::Directory => Some(
                        before.push((names.last(), entry.identity)),
                    ),
                    _ => None,
                }
            },
        }
    }
}

/// The path that some names lead to from a root.
pub open spec fn down(root: Seq<u8>, names: Seq<Seq<u8>>) -> Seq<u8>
    decreases names.len(),
{
    if names.len() == 0 {
        root
    } else {
        path::joined(down(root, names.drop_last()), names.last())
    }
}

proof fn lemma_way_fails(entries: Seq<EntryView>, root: Seq<u8>, names: Seq<Seq<u8>>, n: int)
    requires
        0 <= n <= names.len(),
        seen_on_the_way(entries, root, names.take(n)) is None,
    ensures
        seen_on_the_way(entries, root, names) is None,
    decreases names.len() - n,
{
    if n < names.len() {
        assert(names.take(n + 1).drop_last() =~= names.take(n));
        lemma_way_fails(entries, root, names, n + 1);
    } else {
        assert(names.take(n) =~= names);
    }
}

/// The names between a root and what lies at a relative path below it.
pub open spec fn between(relative: Seq<u8>) -> Seq<Seq<u8>> {
    let names = path::steps(relative);
    if names.len() == 0 {
        names
    } else {
        names.drop_last()
    }
}

/// The directories between a root and what lies at a relative path below it.
pub fn ancestor_identities(root: &[u8], relative: &[u8], entries: &Vec<ScanEntry>) -> (result:
    Option<Vec<Root>>)
    ensures
        match result {
            Some(list) => seen_on_the_way(entry_views(entries@), root@, between(relative@)) == Some(
                root_views(list@),
            ),
            None => seen_on_the_way(entry_views(entries@), root@, between(relative@)) is None,
        },
{
    let ghost views = entry_views(entries@);
    let parts = path::split_steps(relative);
    let ghost all = path::steps(relative@);
    let ghost names = between(relative@);
    assert(path::views(parts@).len() == parts@.len());
    let count: usize = if parts.len() == 0 {
        0
    } else {
        parts.len() - 1
    };
    let mut list: Vec<Root> = Vec::new();
    let mut current: Vec<u8> = text::copy_bytes(root);
    let mut i: usize = 0;
    assert(names.take(0) =~= Seq::empty());
    assert(root_views(list@) =~= Seq::empty());
    while i < count
        invariant
            0 <= i <= count <= parts@.len(),
            count == names.len(),
            views == entry_views(entries@),
            path::views(parts@) == all,
            all == path::steps(relative@),
            names == between(relative@),
            current@ == down(root@, names.take(i as int)),
            seen_on_the_way(views, root@, names.take(i as int)) == Some(root_views(list@)),
        decreases count - i,
    {
        proof {
            assert(names.take(i + 1).drop_last() =~= names.take(i as int));
            assert(path::views(parts@)[i as int] == parts@[i as int]@);
            assert(names.take(i + 1).last() == parts@[i as int]@);
            if seen_on_the_way(views, root@, names.take(i + 1)) is None {
                lemma_way_fails(views, root@, names, i + 1);
            }
        }
        if !path::ordinary(parts[i].as_slice()) {
            return None;
        }
        current = path::join(current.as_slice(), parts[i].as_slice());
        let at: usize = match find_entry(entries, current.as_slice()) {
            Some(at) => at,
            None => {
                return None;
            },
        };
        if entries[at].kind != ResourceKind::Directory {
            return None;
        }
        let ghost before = root_views(list@);
        let identity: FileIdentity = entries[at].identity;
        list.push((text::copy_bytes(parts[i].as_slice()), identity));
        assert(root_views(list@) =~= before.push((parts@[i as int]@, identity)));
        i += 1;
    }
    assert(names.take(count as int) =~= names);
    Some(list)
}

/// Where a candidate stands, as the scan saw it.
#[verifier::ext_equal]
pub struct LocationView {
    pub root: Seq<u8>,
    pub root_identity: FileIdentity,
    pub relative: Seq<u8>,
    pub ancestors: Seq<(Seq<u8>, FileIdentity)>,
    pub identity: FileIdentity,
}

impl View for BundleLocation {
    type V = LocationView;

    open spec fn view(&self) -> LocationView {
        LocationView {
            root: self.root@,
            root_identity: self.root_identity,
            relative: self.relative@,
            ancestors: root_views(self.ancestors@),
            identity: self.identity,
        }
    }
}

/// Where a candidate stands, or why that is not known.
pub open spec fn located(
    entry: EntryView,
    roots: Seq<(Seq<u8>, FileIdentity)>,
    entries: Seq<EntryView>,
) -> Result<LocationView, AppFault> {
    match closest_root(roots, entry.path) {
        None => Err(
            probe::fault(
                AppIssueCode::InvalidInput,
                "app candidate has no explicit root membership"@,
            ),
        ),
        Some((root, root_identity)) => {
            let relative = path::below(entry.path, root);
            match seen_on_the_way(entries, root, between(relative)) {
                None => Err(probe::fault(AppIssueCode::Changed, "ancestor identity unavailable"@)),
                Some(ancestors) => Ok(
                    LocationView {
                        root,
                        root_identity,
                        relative,
                        ancestors,
                        identity: entry.identity,
                    },
                ),
            }
        },
    }
}

pub open spec fn location_result(result: Result<BundleLocation, AppError>) -> Result<
    LocationView,
    AppFault,
> {
    match result {
        Ok(location) => Ok(location@),
        Err(error) => Err(error@),
    }
}

proof fn lemma_closest_holds(roots: Seq<(Seq<u8>, FileIdentity)>, place: Seq<u8>)
    ensures
        closest_root(roots, place) matches Some(root) ==> path::is_within(place, root.0),
    decreases roots.len(),
{
    if roots.len() > 0 {
        lemma_closest_holds(roots.drop_last(), place);
    }
}

/// Finds where a candidate stands.
pub fn locate(entry: &ScanEntry, roots: &Vec<Root>, entries: &Vec<ScanEntry>) -> (result: Result<
    BundleLocation,
    AppError,
>)
    ensures
        location_result(result) == located(entry@, root_views(roots@), entry_views(entries@)),
{
    let at: usize = match explicit_root_for_path(roots, entry.path.as_slice()) {
        Some(at) => at,
        None => {
            return Err(
                AppError::new(
                    AppIssueCode::InvalidInput,
                    "app candidate has no explicit root membership",
                ),
            );
        },
    };
    proof {
        lemma_closest_holds(root_views(roots@), entry@.path);
    }
    let root = roots[at].0.as_slice();
    let relative = path::relative_to(entry.path.as_slice(), root);
    match ancestor_identities(root, relative.as_slice(), entries) {
        None => Err(AppError::new(AppIssueCode::Changed, "ancestor identity unavailable")),
        Some(ancestors) => Ok(
            BundleLocation {
                root: text::copy_bytes(root),
                root_identity: roots[at].1,
                relative,
                ancestors,
                identity: entry.identity,
            },
        ),
    }
}

} // verus!
