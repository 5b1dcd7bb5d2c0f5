//! What holds of every inventory of applications.

use crate::app_inventory;
use crate::app_inventory::{
    AppInventoryLimits, AppInventoryMetadataReadMode, AppInventoryOptions, AppInventoryStatus,
    AppIssueCode, AppKind, ExecutableView, FieldView, NameSource, PathStatus, PlistFormat,
    RecordView, RunningView, ScanReport, ScanStatus, StringState,
};
use crate::bundle;
use crate::bundle::{BundleLocation, BundleView, ExecutableObservation, HeldLook, IoKind, OpenLook};
use crate::bundle_check;
use crate::bundle_check::{ExecutableLook, LeafLooks, RecheckLook};
use crate::bundle_record;
use crate::bundle_record::PlistLook;
use crate::candidates;
use crate::candidates::EntryView;
use crate::inventory_run;
use crate::inventory_run::{InventoryView, IssueView, RunState};
use crate::model::{FileIdentity, Host, ResourceKind};
use crate::path;
use crate::plist;
use crate::plist::{ParsedView, Slot};
use crate::probe;
use crate::probe::{AppFault, ProbeBudget, Reading};
use crate::running;
use crate::running::RunningPath;
use crate::text;
use crate::unicode;
use vstd::prelude::*;
use vstd::string::*;

verus! {

/// The display name of a property list is the name shown, whatever else the list says; the
/// bundle's name stands in only where there is no display name, and the file's name only where
/// there is neither.
pub proof fn display_names_come_first(
    path: Seq<u8>,
    identity: FileIdentity,
    parsed: ParsedView,
    looked: Option<Result<PathStatus, AppFault>>,
    finished: Option<AppFault>,
    record: RecordView,
)
    requires
        bundle_record::inspected(path, identity, parsed, looked, finished) == Ok::<
            RecordView,
            AppFault,
        >(record),
    ensures
        record.source == NameSource::BundleDisplayName <==> parsed.display_name.state
            == StringState::Present,
        parsed.display_name.state == StringState::Present && parsed.display_name.value is Some
            ==> parsed.display_name.value == Some(record.name),
        record.source == NameSource::BundleNameFallback <==> parsed.display_name.state
            != StringState::Present && parsed.bundle_name.state == StringState::Present,
        record.source == NameSource::BundleNameFallback && parsed.bundle_name.value is Some
            ==> parsed.bundle_name.value == Some(record.name),
        record.source == NameSource::BundleFilenameFallback ==> {
            &&& path::file_name(path) is None ==> record.name == "(unknown)"@
            &&& path::file_name(path) matches Some(name) ==> {
                &&& unicode::utf8_text(path::stem(name)) matches Some(title) ==> record.name
                    == title
                &&& unicode::utf8_text(path::stem(name)) is None ==> record.name == "(unknown)"@
            }
        },
        !record.localized,
{
}

/// A record says of a bundle what its property list says: the place and the identity are those
/// that were inspected, and every string goes to the field of its own.
pub proof fn records_repeat_the_property_list(
    path: Seq<u8>,
    identity: FileIdentity,
    parsed: ParsedView,
    looked: Option<Result<PathStatus, AppFault>>,
    finished: Option<AppFault>,
    record: RecordView,
)
    requires
        bundle_record::inspected(path, identity, parsed, looked, finished) == Ok::<
            RecordView,
            AppFault,
        >(record),
    ensures
        record.path == path,
        record.identity == identity,
        record.format == parsed.format,
        record.bundle_id == parsed.bundle_id,
        record.short_version == parsed.short_version,
        record.build_version == parsed.build_version,
        record.package_type == parsed.package_type,
        record.product_dir == parsed.product_dir,
        record.executable.state == parsed.executable.state,
        record.executable.declared == parsed.executable.value,
        record.running == RunningView::NotChecked,
        record.roots.len() == 0,
{
}

/// Only what declares the package type `APPL` is an application; what declares another is none,
/// and of what declares nothing it is unknown.
pub proof fn only_declared_applications_are_applications(
    path: Seq<u8>,
    identity: FileIdentity,
    parsed: ParsedView,
    looked: Option<Result<PathStatus, AppFault>>,
    finished: Option<AppFault>,
    record: RecordView,
)
    requires
        bundle_record::inspected(path, identity, parsed, looked, finished) == Ok::<
            RecordView,
            AppFault,
        >(record),
    ensures
        ({
            let declared = parsed.package_type;
            &&& record.kind == AppKind::App <==> declared.state == StringState::Present
                && declared.value == Some("APPL"@)
            &&& record.kind == AppKind::Unknown <==> declared.state != StringState::Present
                || declared.value is None
        }),
{
}

/// An executable counts as found only where it was declared by one plain name and looked for
/// under it; any other declared name is an invalid one.
pub proof fn executables_are_found_by_plain_names(
    path: Seq<u8>,
    identity: FileIdentity,
    parsed: ParsedView,
    looked: Option<Result<PathStatus, AppFault>>,
    finished: Option<AppFault>,
    record: RecordView,
)
    requires
        bundle_record::inspected(path, identity, parsed, looked, finished) == Ok::<
            RecordView,
            AppFault,
        >(record),
    ensures
        ({
            let declared = parsed.executable;
            let status = record.executable.status;
            &&& declared.state != StringState::Present || declared.value is None ==> status
                == PathStatus::NotChecked
            &&& declared.state == StringState::Present && declared.value is Some ==> {
                let name = declared.value->0;
                if bundle_record::is_single_name(name) && looked is Some {
                    looked->0 == Ok::<PathStatus, AppFault>(status)
                } else {
                    status == PathStatus::InvalidDeclaredPath
                }
            }
        }),
{
}

/// A bundle that changed while it was read, or whose executable could not be looked at, has no
/// record; the change is reported first.
pub proof fn changed_bundles_have_no_record(
    path: Seq<u8>,
    identity: FileIdentity,
    parsed: ParsedView,
    looked: Option<Result<PathStatus, AppFault>>,
    finished: Option<AppFault>,
)
    ensures
        ({
            let outcome = bundle_record::inspected(path, identity, parsed, looked, finished);
            &&& outcome is Ok <==> finished is None && !(looked matches Some(Err(_)))
            &&& finished matches Some(found) ==> outcome == Err::<RecordView, AppFault>(found)
            &&& finished is None && (looked matches Some(Err(_))) ==> (looked matches Some(
                Err(found),
            ) && outcome == Err::<RecordView, AppFault>(found))
        }),
{
}

/// A plain name is not empty, holds neither separator nor null, and is not a directory's way of
/// naming itself or its parent.
pub proof fn plain_names_stay_in_their_directory(name: Seq<char>)
    ensures
        bundle_record::is_single_name(name) <==> {
            &&& name.len() > 0
            &&& forall|i: int| 0 <= i < name.len() ==> #[trigger] name[i] != '/' && name[i] != '\0'
            &&& !(name.len() == 1 && name[0] == '.')
            &&& !(name.len() == 2 && name[0] == '.' && name[1] == '.')
        },
{
    reveal_strlit(".");
    reveal_strlit("..");
    assert(name.len() == 1 && name[0] == '.' ==> name =~= "."@);
    assert(name.len() == 2 && name[0] == '.' && name[1] == '.' ==> name =~= ".."@);
    if bundle_record::is_single_name(name) {
        assert forall|i: int| 0 <= i < name.len() implies #[trigger] name[i] != '/' && name[i]
            != '\0' by {
            assert(name.contains(name[i]));
        }
    } else if name.contains('/') {
        let i = choose|i: int| 0 <= i < name.len() && name[i] == '/';
        assert(name[i] == '/');
    } else if name.contains('\0') {
        let i = choose|i: int| 0 <= i < name.len() && name[i] == '\0';
        assert(name[i] == '\0');
    }
}

/// The key under which a property list holds a string.
pub open spec fn key_of(slot: Slot) -> Seq<char> {
    match slot {
        Slot::DisplayName => "CFBundleDisplayName"@,
        Slot::BundleName => "CFBundleName"@,
        Slot::BundleId => "CFBundleIdentifier"@,
        Slot::ShortVersion => "CFBundleShortVersionString"@,
        Slot::BuildVersion => "CFBundleVersion"@,
        Slot::PackageType => "CFBundlePackageType"@,
        Slot::ProductDir => "CrProductDirName"@,
        Slot::Executable => "CFBundleExecutable"@,
    }
}

/// Every string of a property list is read under its own key, and the product directory only
/// where related data is looked for.
pub proof fn strings_are_read_under_their_keys(
    key: Seq<char>,
    slot: Slot,
    mode: AppInventoryMetadataReadMode,
)
    ensures
        plist::slot_of(key, mode) == Some(slot) <==> key == key_of(slot) && (slot
            == Slot::ProductDir ==> mode == AppInventoryMetadataReadMode::AppRelated),
{
    reveal_strlit("CFBundleDisplayName");
    reveal_strlit("CFBundleName");
    reveal_strlit("CFBundleIdentifier");
    reveal_strlit("CFBundleShortVersionString");
    reveal_strlit("CFBundleVersion");
    reveal_strlit("CFBundlePackageType");
    reveal_strlit("CrProductDirName");
    reveal_strlit("CFBundleExecutable");
    assert("CFBundleDisplayName"@.len() == 19 && "CFBundlePackageType"@.len() == 19);
    assert("CFBundleDisplayName"@[8] == 'D' && "CFBundlePackageType"@[8] == 'P');
    assert("CFBundleIdentifier"@.len() == 18 && "CFBundleExecutable"@.len() == 18);
    assert("CFBundleIdentifier"@[8] == 'I' && "CFBundleExecutable"@[8] == 'E');
    assert("CFBundleName"@.len() == 12 && "CFBundleShortVersionString"@.len() == 26);
    assert("CFBundleVersion"@.len() == 15 && "CrProductDirName"@.len() == 16);
}

/// Filling one string of a property list leaves the others as they were.
pub proof fn strings_are_kept_apart(parsed: ParsedView, slot: Slot, other: Slot, field: FieldView)
    ensures
        parsed.with(slot, field).field(slot) == field,
        other != slot ==> parsed.with(slot, field).field(other) == parsed.field(other),
        parsed.with(slot, field).format == parsed.format,
        parsed.holds(slot) <==> parsed.field(slot).state != StringState::Missing,
{
}

/// A property list that starts with the mark of the binary format is read as one; another is
/// read as XML exactly if it starts like XML behind white space, and is refused otherwise.
pub proof fn formats_are_told_by_the_first_bytes(
    bytes: Seq<u8>,
    limits: AppInventoryLimits,
    mode: AppInventoryMetadataReadMode,
    budget: ProbeBudget,
)
    ensures
        ({
            let marked = bytes.len() >= 8 && bytes.take(8) == seq![
                0x62u8,
                0x70,
                0x6c,
                0x69,
                0x73,
                0x74,
                0x30,
                0x30,
            ];
            let read = bundle_record::info_plist(bytes, limits, mode, budget);
            &&& marked ==> read == crate::plist_binary::binary_plist(bytes, limits, mode, budget)
            &&& !marked && bundle_record::looks_like_xml(bytes) ==> read
                == crate::plist_xml::xml_plist(
                crate::plist_xml::xml_events(bytes),
                limits,
                mode,
                budget,
            )
            &&& !marked && !bundle_record::looks_like_xml(bytes) ==> read.1 == budget && (
            read.0 matches Err(found) && found.code == AppIssueCode::UnsupportedPlistFormat)
        }),
{
    assert(bytes.subrange(0, 8) =~= bytes.take(8));
    assert(crate::plist_binary::magic() =~= seq![0x62u8, 0x70, 0x6c, 0x69, 0x73, 0x74, 0x30, 0x30])
    by {
        lemma_magic();
    }
}

proof fn lemma_magic()
    ensures
        crate::plist_binary::magic() =~= seq![
            0x62u8,
            0x70,
            0x6c,
            0x69,
            0x73,
            0x74,
            0x30,
            0x30,
        ],
{
    reveal_strlit("bplist00");
    vstd::utf8::is_ascii_chars_encode_utf8("bplist00"@);
}

/// White space before an XML property list, however much of it, does not change what it looks
/// like.
pub proof fn leading_space_is_passed_over(bytes: Seq<u8>, lead: int)
    requires
        0 <= lead <= bytes.len(),
        forall|i: int|
            0 <= i < lead ==> #[trigger] bytes[i] == 0x20 || bytes[i] == 0x09 || bytes[i] == 0x0A
                || bytes[i] == 0x0C || bytes[i] == 0x0D,
        lead < bytes.len() ==> bytes[lead] != 0x20 && bytes[lead] != 0x09 && bytes[lead] != 0x0A
            && bytes[lead] != 0x0C && bytes[lead] != 0x0D,
    ensures
        bundle_record::unspaced(bytes) == bytes.skip(lead),
    decreases lead,
{
    if lead == 0 {
        assert(bytes.skip(0) =~= bytes);
    } else {
        let rest = bytes.drop_first();
        assert(bytes[0] == bytes[0]);
        assert forall|i: int| 0 <= i < lead - 1 implies #[trigger] rest[i] == 0x20 || rest[i]
            == 0x09 || rest[i] == 0x0A || rest[i] == 0x0C || rest[i] == 0x0D by {
            assert(rest[i] == bytes[i + 1]);
        }
        if lead - 1 < rest.len() {
            assert(rest[lead - 1] == bytes[lead]);
        }
        leading_space_is_passed_over(rest, lead - 1);
        assert(rest.skip(lead - 1) =~= bytes.skip(lead));
    }
}

/// What is inspected is exactly every directory named like an application that passes the
/// filter and that no exclusion reaches, by its own path or by another path to the same object.
pub proof fn candidates_are_all_applications(
    entries: Seq<EntryView>,
    filter: Seq<char>,
    excludes: Seq<Seq<u8>>,
    upto: int,
    at: int,
)
    requires
        0 <= upto <= entries.len(),
    ensures
        candidates::candidate_places(entries, filter, excludes, upto).contains(at) <==> {
            &&& 0 <= at < upto
            &&& entries[at].kind == ResourceKind::Directory
            &&& candidates::named_like_app(entries[at].path)
            &&& filter.len() == 0 || candidates::passes_filter(entries[at].path, filter)
            &&& forall|i: int, k: int|
                #![trigger entries[i], excludes[k]]
                0 <= i < entries.len() && 0 <= k < excludes.len() && entries[i].identity
                    == entries[at].identity ==> !path::is_within(entries[i].path, excludes[k])
                    && !path::is_within(excludes[k], entries[i].path)
        },
    decreases upto,
{
    let places = candidates::candidate_places(entries, filter, excludes, upto);
    if upto <= 0 {
        assert(!places.contains(at));
    } else {
        let before = candidates::candidate_places(entries, filter, excludes, upto - 1);
        candidates_are_all_applications(entries, filter, excludes, upto - 1, at);
        lemma_not_excluded(entries, excludes, at, upto);
        if candidates::is_candidate(entries[upto - 1], entries, filter, excludes) {
            assert(places == before.push(upto - 1));
            assert(places[before.len() as int] == upto - 1);
            if before.contains(at) {
                let i = choose|i: int| 0 <= i < before.len() && before[i] == at;
                assert(places[i] == at);
            }
            if places.contains(at) {
                let i = choose|i: int| 0 <= i < places.len() && places[i] == at;
                if i < before.len() {
                    assert(before[i] == at);
                }
            }
        }
    }
}

proof fn lemma_not_excluded(
    entries: Seq<EntryView>,
    excludes: Seq<Seq<u8>>,
    at: int,
    upto: int,
)
    requires
        0 < upto <= entries.len(),
    ensures
        at == upto - 1 ==> (!candidates::excluded(entries[at], entries, excludes) <==> forall|
            i: int,
            k: int,
        |
            #![trigger entries[i], excludes[k]]
            0 <= i < entries.len() && 0 <= k < excludes.len() && entries[i].identity
                == entries[at].identity ==> !path::is_within(entries[i].path, excludes[k])
                && !path::is_within(excludes[k], entries[i].path)),
{
    if at == upto - 1 {
        if !candidates::excluded(entries[at], entries, excludes) {
            assert forall|i: int, k: int|
                #![trigger entries[i], excludes[k]]
                0 <= i < entries.len() && 0 <= k < excludes.len() && entries[i].identity
                    == entries[at].identity implies !path::is_within(entries[i].path, excludes[k])
                && !path::is_within(excludes[k], entries[i].path) by {
                assert(!candidates::overlaps_any(entries[i].path, excludes));
                assert(!path::overlap(entries[i].path, excludes[k]));
            }
        } else {
            let i = if candidates::overlaps_any(entries[at].path, excludes) {
                at
            } else {
                choose|i: int|
                    0 <= i < entries.len() && (#[trigger] entries[i]).identity
                        == entries[at].identity && candidates::overlaps_any(
                        entries[i].path,
                        excludes,
                    )
            };
            let k = choose|k: int|
                0 <= k < excludes.len() && #[trigger] path::overlap(entries[i].path, excludes[k]);
            assert(entries[i].identity == entries[at].identity);
            assert(path::overlap(entries[i].path, excludes[k]));
        }
    }
}

/// What is inspected is inspected once, in the order in which it was found.
pub proof fn candidates_keep_their_order(
    entries: Seq<EntryView>,
    filter: Seq<char>,
    excludes: Seq<Seq<u8>>,
    upto: int,
    i: int,
    j: int,
)
    requires
        0 <= i < j < candidates::candidate_places(entries, filter, excludes, upto).len(),
    ensures
        ({
            let places = candidates::candidate_places(entries, filter, excludes, upto);
            0 <= places[i] < places[j] < upto
        }),
    decreases upto,
{
    let before = candidates::candidate_places(entries, filter, excludes, upto - 1);
    if j < before.len() {
        candidates_keep_their_order(entries, filter, excludes, upto - 1, i, j);
    } else {
        lemma_places_below(entries, filter, excludes, upto - 1, i);
    }
}

proof fn lemma_places_below(
    entries: Seq<EntryView>,
    filter: Seq<char>,
    excludes: Seq<Seq<u8>>,
    upto: int,
    i: int,
)
    requires
        0 <= i < candidates::candidate_places(entries, filter, excludes, upto).len(),
    ensures
        0 <= candidates::candidate_places(entries, filter, excludes, upto)[i] < upto,
    decreases upto,
{
    let before = candidates::candidate_places(entries, filter, excludes, upto - 1);
    if i < before.len() {
        lemma_places_below(entries, filter, excludes, upto - 1, i);
    }
}

/// A directory is named like an application exactly if its last name is text that ends in
/// `.app`.
pub proof fn applications_are_told_by_their_suffix(place: Seq<u8>)
    ensures
        candidates::named_like_app(place) <==> {
            &&& path::file_name(place) matches Some(name) && vstd::utf8::valid_utf8(name)
                && name.len() >= 4 && name[name.len() - 4] == 0x2e && name[name.len() - 3] == 0x61
                && name[name.len() - 2] == 0x70 && name[name.len() - 1] == 0x70
        },
{
    lemma_app_suffix();
    if let Some(name) = path::file_name(place) {
        if name.len() >= 4 {
            let tail = name.skip(name.len() - 4);
            assert(tail.len() == 4);
            assert(tail[0] == name[name.len() - 4] && tail[1] == name[name.len() - 3] && tail[2]
                == name[name.len() - 2] && tail[3] == name[name.len() - 1]);
            let suffix = seq![0x2eu8, 0x61, 0x70, 0x70];
            if tail[0] == 0x2e && tail[1] == 0x61 && tail[2] == 0x70 && tail[3] == 0x70 {
                assert(tail =~= suffix);
            }
            if tail == suffix {
                assert(suffix[0] == 0x2e && suffix[1] == 0x61 && suffix[2] == 0x70 && suffix[3]
                    == 0x70);
            }
        }
    }
}

proof fn lemma_app_suffix()
    ensures
        vstd::utf8::encode_utf8(".app"@) == seq![0x2eu8, 0x61, 0x70, 0x70],
{
    reveal_strlit(".app");
    vstd::utf8::is_ascii_chars_encode_utf8(".app"@);
    assert(vstd::utf8::encode_utf8(".app"@) =~= seq![0x2eu8, 0x61, 0x70, 0x70]);
}

/// Whether a text holds the letters of another from one place on, whether they are written
/// large or small.
pub open spec fn alike_at(text: Seq<char>, part: Seq<char>, at: int) -> bool {
    &&& 0 <= at
    &&& at + part.len() <= text.len()
    &&& forall|i: int|
        0 <= i < part.len() ==> unicode::lowered(text[at + i]) == unicode::lowered(
            #[trigger] part[i],
        )
}

/// A path passes a filter exactly if the filter's letters stand in it somewhere, one behind the
/// other, whether they are written large or small.
pub proof fn filters_ignore_case(place: Seq<u8>, filter: Seq<char>)
    ensures
        candidates::passes_filter(place, filter) <==> exists|at: int| #[trigger]
            alike_at(unicode::lossy_text(place), filter, at),
{
    let text = unicode::lossy_text(place);
    let low = unicode::ascii_lower(text);
    let part = unicode::ascii_lower(filter);
    if candidates::passes_filter(place, filter) {
        let at = choose|at: int| #[trigger] unicode::stands_at(low, part, at);
        assert forall|i: int| 0 <= i < filter.len() implies unicode::lowered(text[at + i])
            == unicode::lowered(#[trigger] filter[i]) by {
            assert(low.subrange(at, at + part.len())[i] == part[i]);
        }
        assert(alike_at(text, filter, at));
    }
    if exists|at: int| #[trigger] alike_at(text, filter, at) {
        let at = choose|at: int| #[trigger] alike_at(text, filter, at);
        assert forall|i: int| 0 <= i < part.len() implies low.subrange(at, at + part.len())[i]
            == part[i] by {
            assert(unicode::lowered(text[at + i]) == unicode::lowered(filter[i]));
        }
        assert(low.subrange(at, at + part.len()) =~= part);
        assert(unicode::stands_at(low, part, at));
    }
}

/// Only the letters from `A` to `Z` are written otherwise, as those from `a` to `z`.
pub proof fn only_latin_letters_have_case(c: char)
    ensures
        'A' <= c <= 'Z' ==> unicode::lowered(c) as u32 == c as u32 + 32,
        !('A' <= c <= 'Z') ==> unicode::lowered(c) == c,
{
}

/// The entry known of a place is the last that was found there, and there is one exactly if
/// any was.
pub proof fn places_are_known_by_their_last_entry(entries: Seq<EntryView>, place: Seq<u8>, at: int)
    requires
        0 <= at < entries.len(),
        path::steps(entries[at].path) == path::steps(place),
    ensures
        candidates::entry_at(entries, place) is Some,
        (forall|i: int|
            at < i < entries.len() ==> path::steps((#[trigger] entries[i]).path) != path::steps(
                place,
            )) ==> candidates::entry_at(entries, place) == Some(entries[at]),
    decreases entries.len(),
{
    lemma_same_steps(entries.last().path, place);
    lemma_same_steps(entries[at].path, place);
    if at < entries.len() - 1 {
        let head = entries.drop_last();
        assert(head[at] == entries[at]);
        places_are_known_by_their_last_entry(head, place, at);
        if forall|i: int|
            at < i < entries.len() ==> path::steps((#[trigger] entries[i]).path) != path::steps(
                place,
            ) {
            assert(entries[entries.len() - 1] == entries.last());
            assert forall|i: int| at < i < head.len() implies path::steps(
                (#[trigger] head[i]).path,
            ) != path::steps(place) by {
                assert(head[i] == entries[i]);
            }
        }
    }
}

proof fn lemma_same_steps(a: Seq<u8>, b: Seq<u8>)
    ensures
        path::same_path(a, b) <==> path::steps(a) == path::steps(b),
{
    if path::same_path(a, b) {
        assert(path::steps(a).subrange(0, path::steps(b).len() as int) =~= path::steps(a));
    }
    if path::steps(a) == path::steps(b) {
        assert(path::steps(a).subrange(0, path::steps(b).len() as int) =~= path::steps(b));
    }
}

/// The root that a bundle is opened from is one of those that hold it, and none that holds it
/// is longer; there is none exactly if no root holds it.
pub proof fn bundles_belong_to_the_closest_root(
    roots: Seq<(Seq<u8>, FileIdentity)>,
    place: Seq<u8>,
    at: int,
)
    requires
        0 <= at < roots.len(),
    ensures
        path::is_within(place, roots[at].0) ==> (candidates::closest_root(roots, place) matches Some(
            root,
        ) && root.0.len() >= roots[at].0.len()),
        candidates::closest_root(roots, place) matches Some(root) ==> path::is_within(
            place,
            root.0,
        ) && roots.contains(root),
    decreases roots.len(),
{
    let head = roots.drop_last();
    if at < head.len() {
        assert(head[at] == roots[at]);
        bundles_belong_to_the_closest_root(head, place, at);
    } else if head.len() > 0 {
        bundles_belong_to_the_closest_root(head, place, 0);
    }
    if let Some(root) = candidates::closest_root(roots, place) {
        if root == roots.last() {
            assert(roots[roots.len() - 1] == root);
        } else {
            assert(candidates::closest_root(head, place) == Some(root));
            let i = choose|i: int| 0 <= i < head.len() && head[i] == root;
            assert(roots[i] == root);
        }
    }
}

/// A record lists every root that holds its bundle and no other, each as often as it was given,
/// the shorter before the longer.
pub proof fn records_list_the_roots_that_hold_them(
    roots: Seq<(Seq<u8>, FileIdentity)>,
    place: Seq<u8>,
    root: Seq<u8>,
)
    ensures
        candidates::roots_holding(roots, place).contains(root) <==> path::is_within(place, root)
            && exists|i: int| 0 <= i < roots.len() && (#[trigger] roots[i]).0 == root,
        forall|i: int, j: int|
            0 <= i < j < candidates::roots_holding(roots, place).len() ==> (
            #[trigger] candidates::roots_holding(roots, place)[i]).len() <= (
            #[trigger] candidates::roots_holding(roots, place)[j]).len(),
    decreases roots.len(),
{
    if roots.len() > 0 {
        let head = roots.drop_last();
        let before = candidates::roots_holding(head, place);
        records_list_the_roots_that_hold_them(head, place, root);
        lemma_insert_sorted(before, roots.last().0, root);
        let held = exists|i: int| 0 <= i < roots.len() && (#[trigger] roots[i]).0 == root;
        let held_before = exists|i: int| 0 <= i < head.len() && (#[trigger] head[i]).0 == root;
        if held_before {
            let i = choose|i: int| 0 <= i < head.len() && (#[trigger] head[i]).0 == root;
            assert(roots[i].0 == root);
        }
        if held {
            let i = choose|i: int| 0 <= i < roots.len() && (#[trigger] roots[i]).0 == root;
            if i < head.len() {
                assert(head[i].0 == root);
            }
        }
        assert(roots[roots.len() - 1] == roots.last());
    }
}

proof fn lemma_insert_sorted(list: Seq<Seq<u8>>, place: Seq<u8>, item: Seq<u8>)
    requires
        forall|i: int, j: int|
            0 <= i < j < list.len() ==> (#[trigger] list[i]).len() <= (#[trigger] list[j]).len(),
    ensures
        candidates::inserted_by_length(list, place).contains(item) <==> list.contains(item) || item
            == place,
        forall|i: int, j: int|
            0 <= i < j < candidates::inserted_by_length(list, place).len() ==> (
            #[trigger] candidates::inserted_by_length(list, place)[i]).len() <= (
            #[trigger] candidates::inserted_by_length(list, place)[j]).len(),
        forall|i: int|
            0 <= i < candidates::inserted_by_length(list, place).len() ==> list.contains(
                #[trigger] candidates::inserted_by_length(list, place)[i],
            ) || candidates::inserted_by_length(list, place)[i] == place,
        candidates::inserted_by_length(list, place).len() == list.len() + 1,
    decreases list.len(),
{
    let after = candidates::inserted_by_length(list, place);
    if list.len() == 0 || list.last().len() <= place.len() {
        assert(after == list.push(place));
        assert(after[list.len() as int] == place);
        if list.contains(item) {
            let i = choose|i: int| 0 <= i < list.len() && list[i] == item;
            assert(after[i] == item);
        }
        assert forall|i: int| 0 <= i < after.len() implies list.contains(#[trigger] after[i])
            || after[i] == place by {
            if i < list.len() {
                assert(list[i] == after[i]);
            }
        }
        if after.contains(item) {
            let i = choose|i: int| 0 <= i < after.len() && after[i] == item;
            if i < list.len() {
                assert(list[i] == item);
            }
        }
        assert forall|i: int, j: int| 0 <= i < j < after.len() implies (#[trigger] after[i]).len()
            <= (#[trigger] after[j]).len() by {
            if j < list.len() {
                assert(list[i].len() <= list[j].len());
            } else if i < list.len() - 1 {
                assert(list[i].len() <= list[list.len() - 1].len());
            }
        }
    } else {
        let head = list.drop_last();
        assert forall|i: int, j: int| 0 <= i < j < head.len() implies (#[trigger] head[i]).len()
            <= (#[trigger] head[j]).len() by {
            assert(list[i].len() <= list[j].len());
        }
        lemma_insert_sorted(head, place, item);
        let inner = candidates::inserted_by_length(head, place);
        assert(after == inner.push(list.last()));
        assert(after[inner.len() as int] == list.last());
        if list.contains(item) {
            let i = choose|i: int| 0 <= i < list.len() && list[i] == item;
            if i < head.len() {
                assert(head[i] == item);
            }
        }
        if inner.contains(item) {
            let i = choose|i: int| 0 <= i < inner.len() && inner[i] == item;
            assert(after[i] == item);
        }
        if head.contains(item) {
            let i = choose|i: int| 0 <= i < head.len() && head[i] == item;
            assert(list[i] == item);
        }
        if after.contains(item) {
            let i = choose|i: int| 0 <= i < after.len() && after[i] == item;
            if i < inner.len() {
                assert(inner[i] == item);
            } else {
                assert(list[list.len() - 1] == item);
            }
        }
        assert forall|i: int| 0 <= i < after.len() implies list.contains(#[trigger] after[i])
            || after[i] == place by {
            if i < inner.len() {
                assert(inner[i] == after[i]);
                if head.contains(inner[i]) {
                    let k = choose|k: int| 0 <= k < head.len() && head[k] == inner[i];
                    assert(list[k] == inner[i]);
                }
            } else {
                assert(list[list.len() - 1] == after[i]);
            }
        }
        assert forall|i: int, j: int| 0 <= i < j < after.len() implies (#[trigger] after[i]).len()
            <= (#[trigger] after[j]).len() by {
            assert(after[i] == inner[i]);
            if j < inner.len() {
                assert(after[j] == inner[j]);
            } else {
                if head.contains(inner[i]) {
                    let k = choose|k: int| 0 <= k < head.len() && head[k] == inner[i];
                    assert(list[k].len() <= list[list.len() - 1].len());
                }
            }
        }
    }
}

/// A process counts for an executable exactly if its path is the executable's; no process of
/// another is named, and none of its own is left out.
pub proof fn processes_are_told_by_their_path(
    executable: ExecutableView,
    place: Seq<u8>,
    running: Seq<RunningPath>,
    listing: Seq<(u32, Vec<u8>)>,
)
    requires
        running::groups(running, listing),
        executable.state == StringState::Present,
        executable.status == PathStatus::PresentFile,
        executable.declared is Some,
    ensures
        ({
            let seen = running::observed(executable, Some(place), running);
            &&& seen == RunningView::NotRunning <==> forall|k: int|
                0 <= k < listing.len() ==> !path::same_path((#[trigger] listing[k]).1@, place)
            &&& seen is Running || seen == RunningView::NotRunning
            &&& seen matches RunningView::Running(pids) ==> forall|pid: u32| #[trigger]
                pids.contains(pid) <==> exists|k: int|
                    0 <= k < listing.len() && path::same_path((#[trigger] listing[k]).1@, place)
                        && listing[k].0 == pid
        }),
{
    lemma_listed_pids(running, listing, place);
    let pids = running::pids_of(listing, place);
    assert forall|pid: u32| #[trigger] pids.contains(pid) <==> exists|k: int|
        0 <= k < listing.len() && path::same_path((#[trigger] listing[k]).1@, place)
            && listing[k].0 == pid by {
        lemma_pids_of(listing, place, pid);
    }
    if pids.len() == 0 {
        assert forall|k: int| 0 <= k < listing.len() implies !path::same_path(
            (#[trigger] listing[k]).1@,
            place,
        ) by {
            if path::same_path(listing[k].1@, place) {
                assert(pids.contains(listing[k].0));
            }
        }
    } else {
        assert(pids.contains(pids[0]));
    }
}

proof fn lemma_pids_of(listing: Seq<(u32, Vec<u8>)>, place: Seq<u8>, pid: u32)
    ensures
        running::pids_of(listing, place).contains(pid) <==> exists|k: int|
            0 <= k < listing.len() && path::same_path((#[trigger] listing[k]).1@, place)
                && listing[k].0 == pid,
    decreases listing.len(),
{
    let all = running::pids_of(listing, place);
    if listing.len() == 0 {
        assert(!all.contains(pid));
    } else {
        let head = listing.drop_last();
        let before = running::pids_of(head, place);
        lemma_pids_of(head, place, pid);
        assert(listing[listing.len() - 1] == listing.last());
        if before.contains(pid) {
            let k = choose|k: int|
                0 <= k < head.len() && path::same_path((#[trigger] head[k]).1@, place) && head[k].0
                    == pid;
            assert(listing[k] == head[k]);
            let i = choose|i: int| 0 <= i < before.len() && before[i] == pid;
            assert(all[i] == pid);
        }
        if path::same_path(listing.last().1@, place) {
            assert(all[before.len() as int] == listing.last().0);
        }
        if all.contains(pid) {
            let i = choose|i: int| 0 <= i < all.len() && all[i] == pid;
            if i < before.len() {
                assert(before[i] == pid);
            }
        }
        if exists|k: int|
            0 <= k < listing.len() && path::same_path((#[trigger] listing[k]).1@, place)
                && listing[k].0 == pid {
            let k = choose|k: int|
                0 <= k < listing.len() && path::same_path((#[trigger] listing[k]).1@, place)
                    && listing[k].0 == pid;
            if k < head.len() {
                assert(head[k] == listing[k]);
            }
        }
    }
}

proof fn lemma_listed_pids(running: Seq<RunningPath>, listing: Seq<(u32, Vec<u8>)>, place: Seq<u8>)
    requires
        running::groups(running, listing),
    ensures
        running::listed_pids(running, place) == running::pids_of(listing, place),
{
    if running::is_listed(running, place) {
        let i = choose|i: int|
            0 <= i < running.len() && path::same_path((#[trigger] running[i]).path@, place);
        lemma_first_listed(running, place, i);
        assert(running[i].pids@ == running::pids_of(listing, running[i].path@));
        lemma_pids_same(listing, running[i].path@, place);
    } else {
        lemma_none_listed(running, place);
        lemma_no_pids(running, listing, place);
    }
}

proof fn lemma_pids_same(listing: Seq<(u32, Vec<u8>)>, a: Seq<u8>, b: Seq<u8>)
    requires
        path::same_path(a, b),
    ensures
        running::pids_of(listing, a) == running::pids_of(listing, b),
    decreases listing.len(),
{
    if listing.len() > 0 {
        lemma_pids_same(listing.drop_last(), a, b);
        let c = listing.last().1@;
        lemma_same_steps(a, b);
        lemma_same_steps(c, a);
        lemma_same_steps(c, b);
    }
}

proof fn lemma_first_listed(running: Seq<RunningPath>, place: Seq<u8>, i: int)
    requires
        0 <= i < running.len(),
        path::same_path(running[i].path@, place),
        forall|i: int, j: int|
            0 <= i < j < running.len() ==> !path::same_path(
                (#[trigger] running[i]).path@,
                (#[trigger] running[j]).path@,
            ),
    ensures
        running::listed_pids(running, place) == running[i].pids@,
    decreases running.len(),
{
    if i > 0 {
        lemma_same_steps(running[0].path@, place);
        lemma_same_steps(running[i].path@, place);
        lemma_same_steps(running[0].path@, running[i].path@);
        let rest = running.drop_first();
        assert(rest[i - 1] == running[i]);
        assert forall|i: int, j: int| 0 <= i < j < rest.len() implies !path::same_path(
            (#[trigger] rest[i]).path@,
            (#[trigger] rest[j]).path@,
        ) by {
            assert(rest[i] == running[i + 1] && rest[j] == running[j + 1]);
        }
        lemma_first_listed(rest, place, i - 1);
    }
}

proof fn lemma_none_listed(running: Seq<RunningPath>, place: Seq<u8>)
    requires
        !running::is_listed(running, place),
    ensures
        running::listed_pids(running, place) == Seq::<u32>::empty(),
    decreases running.len(),
{
    if running.len() > 0 {
        let rest = running.drop_first();
        assert(!path::same_path(running[0].path@, place));
        assert forall|i: int| 0 <= i < rest.len() implies !path::same_path(
            (#[trigger] rest[i]).path@,
            place,
        ) by {
            assert(rest[i] == running[i + 1]);
        }
        lemma_none_listed(rest, place);
    }
}

proof fn lemma_no_pids(running: Seq<RunningPath>, listing: Seq<(u32, Vec<u8>)>, place: Seq<u8>)
    requires
        !running::is_listed(running, place),
        forall|k: int|
            0 <= k < listing.len() ==> running::is_listed(running, (#[trigger] listing[k]).1@),
    ensures
        running::pids_of(listing, place) == Seq::<u32>::empty(),
    decreases listing.len(),
{
    if listing.len() > 0 {
        let head = listing.drop_last();
        assert forall|k: int| 0 <= k < head.len() implies running::is_listed(
            running,
            (#[trigger] head[k]).1@,
        ) by {
            assert(head[k] == listing[k]);
        }
        lemma_no_pids(running, head, place);
        assert(listing[listing.len() - 1] == listing.last());
        if path::same_path(listing.last().1@, place) {
            let c = listing.last().1@;
            assert(running::is_listed(running, c));
            let i = choose|i: int|
                0 <= i < running.len() && path::same_path((#[trigger] running[i]).path@, c);
            lemma_same_steps(running[i].path@, c);
            lemma_same_steps(c, place);
            lemma_same_steps(running[i].path@, place);
            assert(path::same_path(running[i].path@, place));
        }
    }
}

/// Nothing is said to run or not to run of an executable that is not declared, not a regular
/// file, or not to be found; the first of these is the reason given.
pub proof fn only_present_executables_are_attributed(
    executable: ExecutableView,
    resolved: Option<Seq<u8>>,
    running: Seq<RunningPath>,
)
    ensures
        ({
            let seen = running::observed(executable, resolved, running);
            &&& seen is NotAttributable <==> executable.state != StringState::Present
                || executable.status != PathStatus::PresentFile || executable.declared is None
                || resolved is None
            &&& executable.state != StringState::Present ==> seen == RunningView::NotAttributable(
                "no valid declared executable"@,
            )
            &&& executable.state == StringState::Present && executable.status
                != PathStatus::PresentFile ==> seen == RunningView::NotAttributable(
                "executable is not a present regular file"@,
            )
            &&& !(seen is NotChecked) && !(seen is Unknown)
        }),
{
}

/// Stopping by hand is reported before the end of the time.
pub proof fn cancelling_comes_before_the_clock(reading: Reading)
    ensures
        reading.stop() is None <==> !reading.cancelled && reading.elapsed_nanos
            < reading.budget_nanos,
        reading.cancelled ==> (reading.stop() matches Some(found) && found.code
            == AppIssueCode::Cancelled),
        !reading.cancelled && reading.elapsed_nanos >= reading.budget_nanos ==> (
        reading.stop() matches Some(found) && found.code == AppIssueCode::DurationLimit),
{
}

/// Spending is allowed exactly up to its limit, and what is refused costs nothing.
pub proof fn spending_stops_at_the_limit(
    budget: ProbeBudget,
    io: u64,
    kept: usize,
    limits: AppInventoryLimits,
)
    ensures
        budget.after_io(io, limits).0 is Ok <==> budget.io_bytes + io
            <= limits.max_total_plist_io_bytes,
        budget.after_io(io, limits).0 is Ok ==> budget.after_io(io, limits).1 == (ProbeBudget {
            io_bytes: (budget.io_bytes + io) as u64,
            ..budget
        }),
        budget.after_io(io, limits).0 is Err ==> budget.after_io(io, limits).1 == budget,
        budget.after_retained(kept, limits).0 is Ok <==> budget.retained_bytes + kept
            <= limits.max_total_retained_metadata_string_bytes,
        budget.after_retained(kept, limits).0 is Ok ==> budget.after_retained(kept, limits).1 == (
        ProbeBudget { retained_bytes: (budget.retained_bytes + kept) as usize, ..budget }),
        budget.after_retained(kept, limits).0 is Err ==> budget.after_retained(kept, limits).1
            == budget,
        budget.after_visit(limits).0 is Ok <==> budget.visited_refs < limits.max_plist_refs_visited,
        budget.after_visit(limits).0 is Ok ==> budget.after_visit(limits).1 == (ProbeBudget {
            visited_refs: (budget.visited_refs + 1) as usize,
            ..budget
        }),
        budget.after_visit(limits).0 is Err ==> budget.after_visit(limits).1 == budget,
{
}

/// A property list is read exactly if it is within the limit for one file and within what is
/// left of the limit for all, and the smaller limit is reported first.
pub proof fn large_property_lists_are_not_read(
    size: u64,
    limits: AppInventoryLimits,
    budget: ProbeBudget,
)
    ensures
        bundle_record::read_refusal(size, limits, budget) is None <==> size
            <= limits.max_info_plist_bytes && budget.io_bytes + size
            <= limits.max_total_plist_io_bytes && size <= usize::MAX,
        size > limits.max_info_plist_bytes ==> (bundle_record::read_refusal(
            size,
            limits,
            budget,
        ) matches Some(found) && found.code == AppIssueCode::PlistSizeLimit),
{
}

/// No limit may be zero, and none may exceed what an inventory has unless told otherwise.
pub proof fn limits_are_bounded(limits: AppInventoryLimits)
    ensures
        limits.allowed() <==> {
            &&& 1 <= limits.max_candidates <= 4096
            &&& 1 <= limits.max_info_plist_bytes <= 1024 * 1024
            &&& 1 <= limits.max_total_plist_io_bytes <= 64 * 1024 * 1024
            &&& 1 <= limits.max_plist_objects <= 16 * 1024
            &&& 1 <= limits.max_plist_refs_visited <= 32 * 1024
            &&& 1 <= limits.max_plist_depth <= 8
            &&& 1 <= limits.max_xml_nodes <= 20_000
            &&& 1 <= limits.max_xml_depth <= 16
            &&& 1 <= limits.max_string_bytes <= 4096
            &&& 1 <= limits.max_retained_string_bytes <= 64 * 1024
            &&& 1 <= limits.max_total_retained_metadata_string_bytes <= 16 * 1024 * 1024
            &&& 1 <= limits.max_issues <= 1024
        },
{
}

/// An inventory starts exactly with allowed limits on macOS; bad limits are reported first.
pub proof fn inventories_start_on_one_platform(host: Host, limits: AppInventoryLimits)
    ensures
        inventory_run::refusal(host, limits) is None <==> limits.allowed() && host == Host::MacOs,
        !limits.allowed() ==> (inventory_run::refusal(host, limits) matches Some(found)
            && found.code == AppIssueCode::InvalidInput),
        limits.allowed() && host != Host::MacOs ==> (inventory_run::refusal(
            host,
            limits,
        ) matches Some(found) && found.code == AppIssueCode::UnsupportedPlatform),
{
}

/// Only a complete inventory exits with zero, and every way to end has a code of its own.
pub proof fn exit_codes_tell_how_far_it_got(a: AppInventoryStatus, b: AppInventoryStatus)
    ensures
        a.code() == 0 <==> a == AppInventoryStatus::Complete,
        a.code() == 130 <==> a == AppInventoryStatus::Cancelled,
        a.code() == 3 <==> a == AppInventoryStatus::Partial,
        a.code() == 1 <==> a == AppInventoryStatus::Failed,
        a.code() == b.code() ==> a == b,
{
}

/// A bundle that could not be inspected is still listed, by its file's name and as of unknown
/// kind, with an issue of its own; the inventory is then not complete, and stops where the
/// failure is one of the whole run.
pub proof fn failed_inspections_are_listed(
    state: RunState,
    entry: EntryView,
    found: AppFault,
    roots: Seq<(Seq<u8>, FileIdentity)>,
    limits: AppInventoryLimits,
)
    requires
        state.inventory.counts.inspected_candidates < usize::MAX,
        state.inventory.counts.metadata_issues < usize::MAX,
        state.inventory.counts.unknown < usize::MAX,
        state.inventory.omitted < usize::MAX,
    ensures
        ({
            let after = state.after_inspection(entry, Err(found), roots, limits);
            let apps = after.inventory.apps;
            &&& apps.len() == state.inventory.apps.len() + 1
            &&& apps.drop_last() == state.inventory.apps
            &&& apps.last().path == entry.path
            &&& apps.last().identity == entry.identity
            &&& apps.last().kind == AppKind::Unknown
            &&& apps.last().format == PlistFormat::Unsupported
            &&& apps.last().source == NameSource::BundleFilenameFallback
            &&& apps.last().bundle_id.state == StringState::Missing
            &&& apps.last().bundle_id.value is None
            &&& apps.last().executable.status == PathStatus::NotChecked
            &&& apps.last().roots == candidates::roots_holding(roots, entry.path)
            &&& !after.inventory.complete
            &&& after.inventory.status != AppInventoryStatus::Complete
            &&& after.inventory.status == AppInventoryStatus::Cancelled <==> found.code
                == AppIssueCode::Cancelled
            &&& after.stopped <==> (found.code == AppIssueCode::Cancelled || found.code
                == AppIssueCode::InvalidInput || found.code == AppIssueCode::Internal || found.code
                == AppIssueCode::UnsupportedPlatform)
            &&& after.inventory.counts.unknown == state.inventory.counts.unknown + 1
            &&& after.inventory.counts.metadata_issues == state.inventory.counts.metadata_issues
                + 1
            &&& after.inventory.counts.recognized_apps == state.inventory.counts.recognized_apps
            &&& after.seen == state.seen.push(entry.identity)
            &&& after.position == state.position + 1
            &&& state.inventory.issues.len() < limits.max_issues ==> after.inventory.issues
                == state.inventory.issues.push((IssueView { path: Some(entry.path), fault: found }))
        }),
{
    let after = state.after_inspection(entry, Err(found), roots, limits);
    assert(after.inventory.apps.drop_last() =~= state.inventory.apps);
}

/// An inspected bundle is listed behind the others, with the roots that hold it, and counted
/// once, under its kind; it changes neither how far the inventory got nor its issues.
pub proof fn inspected_bundles_are_counted_by_kind(
    state: RunState,
    entry: EntryView,
    record: RecordView,
    roots: Seq<(Seq<u8>, FileIdentity)>,
    limits: AppInventoryLimits,
)
    requires
        state.inventory.counts.inspected_candidates < usize::MAX,
        state.inventory.counts.recognized_apps < usize::MAX,
        state.inventory.counts.non_app < usize::MAX,
        state.inventory.counts.unknown < usize::MAX,
    ensures
        ({
            let after = state.after_inspection(entry, Ok(record), roots, limits);
            let counts = state.inventory.counts;
            let then = after.inventory.counts;
            &&& after.inventory.apps == state.inventory.apps.push(
                RecordView { roots: candidates::roots_holding(roots, entry.path), ..record },
            )
            &&& then.inspected_candidates == counts.inspected_candidates + 1
            &&& then.recognized_apps == counts.recognized_apps + if record.kind == AppKind::App {
                1int
            } else {
                0
            }
            &&& then.non_app == counts.non_app + if record.kind == AppKind::NonApp {
                1int
            } else {
                0
            }
            &&& then.unknown == counts.unknown + if record.kind == AppKind::Unknown {
                1int
            } else {
                0
            }
            &&& then.metadata_issues == counts.metadata_issues
            &&& then.duplicate_identities == counts.duplicate_identities
            &&& after.inventory.status == state.inventory.status
            &&& after.inventory.complete == state.inventory.complete
            &&& after.inventory.issues == state.inventory.issues
            &&& after.stopped == state.stopped
        }),
{
}

/// A bundle found again under another path is not listed again: the record that there is takes
/// on the roots that hold the other path, and nothing else of it changes.
pub proof fn bundles_are_listed_once(
    state: RunState,
    entry: EntryView,
    roots: Seq<(Seq<u8>, FileIdentity)>,
    at: int,
)
    requires
        inventory_run::consistent(state, state_limits()),
        0 <= at < state.seen.len(),
        state.seen[at] == entry.identity,
    ensures
        ({
            let after = state.after_duplicate(entry, roots);
            let old = state.inventory.apps[at];
            let new = after.inventory.apps[at];
            &&& after.inventory.apps.len() == state.inventory.apps.len()
            &&& forall|i: int|
                0 <= i < state.inventory.apps.len() && i != at ==> #[trigger] after.inventory.apps[i]
                    == state.inventory.apps[i]
            &&& new == (RecordView { roots: new.roots, ..old })
            &&& forall|i: int|
                0 <= i < old.roots.len() ==> new.roots.contains(#[trigger] old.roots[i])
            &&& forall|root: Seq<u8>|
                #![trigger candidates::roots_holding(roots, entry.path).contains(root)]
                candidates::roots_holding(roots, entry.path).contains(root) ==> exists|i: int|
                    0 <= i < new.roots.len() && path::same_path(#[trigger] new.roots[i], root)
            &&& after.inventory.counts.duplicate_identities
                == state.inventory.counts.duplicate_identities + 1
            &&& after.inventory.counts.inspected_candidates
                == state.inventory.counts.inspected_candidates
            &&& after.seen == state.seen
        }),
{
    lemma_place(state.seen, entry.identity, at);
    let old = state.inventory.apps[at];
    let more = candidates::roots_holding(roots, entry.path);
    let new = inventory_run::with_roots(old.roots, more);
    assert forall|i: int| 0 <= i < old.roots.len() implies new.contains(
        #[trigger] old.roots[i],
    ) by {
        lemma_with_roots_keeps(old.roots, more, i);
        assert(new[i] == old.roots[i]);
    }
    assert forall|root: Seq<u8>|
        #![trigger more.contains(root)]
        more.contains(root) implies exists|i: int|
        0 <= i < new.len() && path::same_path(#[trigger] new[i], root) by {
        let k = choose|k: int| 0 <= k < more.len() && more[k] == root;
        lemma_with_roots_adds(old.roots, more, k);
    }
}

/// The limits that an inventory has unless told otherwise.
pub open spec fn state_limits() -> AppInventoryLimits {
    app_inventory::default_limits()
}

proof fn lemma_place(list: Seq<FileIdentity>, identity: FileIdentity, at: int)
    requires
        0 <= at < list.len(),
        list[at] == identity,
        list.no_duplicates(),
    ensures
        inventory_run::place_of(list, identity) == at,
    decreases list.len(),
{
    if at > 0 {
        assert(list[0] != list[at]);
        let rest = list.drop_first();
        assert(rest[at - 1] == list[at]);
        assert forall|i: int, j: int| 0 <= i < j < rest.len() implies rest[i] != rest[j] by {
            assert(list[i + 1] != list[j + 1]);
        }
        lemma_place(rest, identity, at - 1);
    }
}

proof fn lemma_with_roots_keeps(list: Seq<Seq<u8>>, more: Seq<Seq<u8>>, i: int)
    requires
        0 <= i < list.len(),
    ensures
        inventory_run::with_roots(list, more).len() >= list.len(),
        inventory_run::with_roots(list, more)[i] == list[i],
    decreases more.len(),
{
    if more.len() > 0 {
        lemma_with_roots_keeps(list, more.drop_last(), i);
    }
}

proof fn lemma_with_roots_adds(list: Seq<Seq<u8>>, more: Seq<Seq<u8>>, k: int)
    requires
        0 <= k < more.len(),
    ensures
        exists|i: int|
            0 <= i < inventory_run::with_roots(list, more).len() && path::same_path(
                #[trigger] inventory_run::with_roots(list, more)[i],
                more[k],
            ),
    decreases more.len(),
{
    let before = inventory_run::with_roots(list, more.drop_last());
    let after = inventory_run::with_roots(list, more);
    if k < more.len() - 1 {
        lemma_with_roots_adds(list, more.drop_last(), k);
        let i = choose|i: int|
            0 <= i < before.len() && path::same_path(#[trigger] before[i], more.drop_last()[k]);
        assert(after[i] == before[i]);
        assert(path::same_path(after[i], more[k]));
    } else if exists|i: int| 0 <= i < before.len() && path::same_path(
        #[trigger] before[i],
        more.last(),
    ) {
        let i = choose|i: int| 0 <= i < before.len() && path::same_path(
            #[trigger] before[i],
            more.last(),
        );
        assert(path::same_path(after[i], more[k]));
    } else {
        lemma_same_steps(more.last(), more.last());
        assert(after[before.len() as int] == more.last());
        assert(path::same_path(after[before.len() as int], more[k]));
    }
}

/// A bundle is opened exactly from a proper root that is still the one that was scanned, along
/// directories that are still the scanned ones, to a bundle that is still the scanned one and
/// holds its directory and its property list, none of them in the cloud only.
pub proof fn opened_bundles_are_the_scanned_ones(
    location: BundleLocation,
    look: OpenLook,
    view: BundleView,
)
    requires
        bundle::opened(location, look) == Ok::<BundleView, AppFault>(view),
    ensures
        bundle::proper_root(location.root@),
        view.root.identity == location.root_identity,
        view.root.kind == ResourceKind::Directory,
        view.bundle.identity == location.identity,
        view.bundle.kind == ResourceKind::Directory,
        view.contents.kind == ResourceKind::Directory,
        view.info.kind == ResourceKind::File,
        look.root matches HeldLook::Held(raw) && raw.flags & 0x4000_0000 == 0,
        look.bundle matches HeldLook::Held(raw) && raw.flags & 0x4000_0000 == 0,
        look.contents matches HeldLook::Held(raw) && raw.flags & 0x4000_0000 == 0,
        look.info matches HeldLook::Held(raw) && raw.flags & 0x4000_0000 == 0,
        view.chain.len() == location.ancestors@.len(),
        forall|i: int|
            0 <= i < view.chain.len() ==> (#[trigger] view.chain[i]).identity
                == location.ancestors@[i].1 && view.chain[i].kind == ResourceKind::Directory,
        view.macos is None,
        view.executable is None,
{
    lemma_chain(location.ancestors@, look.ancestors@);
}

proof fn lemma_chain(ancestors: Seq<(Vec<u8>, FileIdentity)>, looks: Seq<HeldLook>)
    ensures
        bundle::opened_chain(ancestors, looks) matches Ok(chain) ==> {
            &&& chain.len() == ancestors.len()
            &&& forall|i: int|
                0 <= i < chain.len() ==> (#[trigger] chain[i]).identity == ancestors[i].1
                    && chain[i].kind == ResourceKind::Directory
        },
    decreases ancestors.len(),
{
    if ancestors.len() > 0 {
        lemma_chain(ancestors.drop_last(), looks);
    }
}

/// A file's stamp keeps what tells it apart: device, inode, kind by the mode, flags, size and
/// both times; a negative size is no size.
pub proof fn stamps_keep_what_was_seen(raw: bundle::RawStat)
    ensures
        raw.stamp() is Ok <==> raw.size >= 0,
        raw.stamp() matches Ok(stamp) ==> {
            &&& stamp.identity == (FileIdentity::Unix { device: raw.device, inode: raw.inode })
            &&& stamp.flags == raw.flags
            &&& stamp.size == raw.size
            &&& stamp.mtime == raw.mtime
            &&& stamp.ctime == raw.ctime
            &&& stamp.kind == ResourceKind::File <==> raw.mode & 0o170000 == 0o100000
            &&& stamp.kind == ResourceKind::Directory <==> raw.mode & 0o170000 == 0o040000
            &&& stamp.kind == ResourceKind::Link <==> raw.mode & 0o170000 == 0o120000
        },
{
}

/// An executable is a present file exactly if `Contents/MacOS` is a directory of its own that
/// did not change and the declared name in it is a regular file.
pub proof fn present_executables_are_regular_files(view: BundleView, look: ExecutableLook)
    ensures
        bundle_check::executable_status(view, look).0 == Ok::<PathStatus, AppFault>(
            PathStatus::PresentFile,
        ) <==> {
            &&& look.macos matches Ok(macos) && macos.size >= 0 && macos.mode & 0o170000
                == 0o040000 && macos.flags & 0x4000_0000 == 0
            &&& look.held_macos matches HeldLook::Held(held) && held.stamp() == look.macos->Ok_0.stamp()
                && held.flags & 0x4000_0000 == 0
            &&& look.leaf matches Ok(leaf) && leaf.size >= 0 && leaf.mode & 0o170000 == 0o100000
        },
        bundle_check::executable_status(view, look).0 == Ok::<PathStatus, AppFault>(
            PathStatus::PresentFile,
        ) ==> bundle_check::executable_status(view, look).1 == (BundleView {
            macos: Some(look.macos->Ok_0.stamp()->Ok_0),
            executable: Some(ExecutableObservation::Present(look.leaf->Ok_0.stamp()->Ok_0)),
            ..view
        }),
{
}

/// A failed system call is reported as what it was: a link that was not followed, a missing
/// right, a missing file, or something else, with its number and its words behind the context.
pub proof fn failures_keep_their_reason(failure: bundle::IoFailure, context: Seq<char>)
    ensures
        ({
            let fault = bundle::errno_fault(failure, context);
            &&& fault.code == AppIssueCode::LinkSkipped <==> failure.kind == IoKind::Loop
            &&& fault.code == AppIssueCode::PermissionDenied <==> failure.kind
                == IoKind::PermissionDenied
            &&& fault.code == AppIssueCode::NotFound <==> failure.kind == IoKind::NotFound
            &&& fault.os_code == failure.os_code
            &&& fault.message == context + ": "@ + failure.text@
        }),
{
}

/// The roots that bundles are opened from are exactly those of the given ones that were scanned
/// as directories, each with the identity that was seen there.
pub proof fn known_roots_are_scanned_directories(
    entries: Seq<EntryView>,
    roots: Seq<Seq<u8>>,
    k: int,
)
    ensures
        0 <= k < candidates::known_roots(entries, roots).len() ==> {
            let (place, identity) = candidates::known_roots(entries, roots)[k];
            &&& roots.contains(place)
            &&& candidates::entry_at(entries, place) matches Some(entry) && entry.kind
                == ResourceKind::Directory && entry.identity == identity
        },
        0 <= k < roots.len() && (candidates::entry_at(entries, roots[k]) matches Some(entry)
            && entry.kind == ResourceKind::Directory) ==> exists|i: int|
            0 <= i < candidates::known_roots(entries, roots).len() && path::same_path(
                (#[trigger] candidates::known_roots(entries, roots)[i]).0,
                roots[k],
            ),
    decreases roots.len(),
{
    if roots.len() > 0 {
        let head = roots.drop_last();
        let before = candidates::known_roots(entries, head);
        let all = candidates::known_roots(entries, roots);
        known_roots_are_scanned_directories(entries, head, k);
        assert(roots[roots.len() - 1] == roots.last());
        if 0 <= k < before.len() {
            let place = before[k].0;
            let i = choose|i: int| 0 <= i < head.len() && head[i] == place;
            assert(roots[i] == place);
            assert(all[k] == before[k]);
        }
        if 0 <= k < roots.len() && (candidates::entry_at(entries, roots[k]) matches Some(entry)
            && entry.kind == ResourceKind::Directory) {
            if k < head.len() {
                assert(head[k] == roots[k]);
                let i = choose|i: int|
                    0 <= i < before.len() && path::same_path(
                        (#[trigger] before[i]).0,
                        head[k],
                    );
                assert(all[i] == before[i]);
            } else if candidates::lists_root(before, roots.last()) {
                let i = choose|i: int|
                    0 <= i < before.len() && path::same_path(
                        (#[trigger] before[i]).0,
                        roots.last(),
                    );
                assert(all[i] == before[i]);
            } else {
                lemma_same_steps(roots.last(), roots.last());
                assert(all[before.len() as int].0 == roots.last());
            }
        }
    }
}

/// A bundle is opened under its own identity, from the closest root that holds it, along every
/// directory between the two, each with the identity that was seen there; where one of them was
/// not seen as a directory it is not opened.
pub proof fn bundles_are_reached_through_seen_directories(
    entry: EntryView,
    roots: Seq<(Seq<u8>, FileIdentity)>,
    entries: Seq<EntryView>,
)
    ensures
        ({
            let found = candidates::located(entry, roots, entries);
            &&& candidates::closest_root(roots, entry.path) is None ==> (found matches Err(fault)
                && fault.code == AppIssueCode::InvalidInput)
            &&& found matches Ok(location) ==> {
                let steps = path::steps(location.relative);
                &&& candidates::closest_root(roots, entry.path) == Some(
                    (location.root, location.root_identity),
                )
                &&& location.identity == entry.identity
                &&& location.relative == path::below(entry.path, location.root)
                &&& location.ancestors.len() == if steps.len() == 0 {
                    0
                } else {
                    steps.len() - 1
                }
                &&& forall|i: int|
                    0 <= i < location.ancestors.len() ==> (#[trigger] location.ancestors[i]).0
                        == steps[i] && path::is_name(steps[i]) && (candidates::entry_at(
                        entries,
                        candidates::down(location.root, steps.take(i + 1)),
                    ) matches Some(seen) && seen.kind == ResourceKind::Directory && seen.identity
                        == location.ancestors[i].1)
            }
            &&& found is Err && candidates::closest_root(roots, entry.path) is Some ==> (
            found matches Err(fault) && fault.code == AppIssueCode::Changed)
        }),
{
    if let Some((root, identity)) = candidates::closest_root(roots, entry.path) {
        let relative = path::below(entry.path, root);
        let steps = path::steps(relative);
        let names = candidates::between(relative);
        lemma_seen(entries, root, names);
        if let Ok(location) = candidates::located(entry, roots, entries) {
            assert forall|i: int| 0 <= i < location.ancestors.len() implies (
            #[trigger] location.ancestors[i]).0 == steps[i] && path::is_name(steps[i]) && (
            candidates::entry_at(
                entries,
                candidates::down(location.root, steps.take(i + 1)),
            ) matches Some(seen) && seen.kind == ResourceKind::Directory && seen.identity
                == location.ancestors[i].1) by {
                assert(names[i] == steps[i]);
                assert(names.take(i + 1) =~= steps.take(i + 1));
            }
        }
    }
}

proof fn lemma_seen(entries: Seq<EntryView>, root: Seq<u8>, names: Seq<Seq<u8>>)
    ensures
        candidates::seen_on_the_way(entries, root, names) matches Some(list) ==> {
            &&& list.len() == names.len()
            &&& forall|i: int|
                0 <= i < list.len() ==> (#[trigger] list[i]).0 == names[i] && path::is_name(
                    names[i],
                ) && (candidates::entry_at(
                    entries,
                    candidates::down(root, names.take(i + 1)),
                ) matches Some(seen) && seen.kind == ResourceKind::Directory && seen.identity
                    == list[i].1)
        },
    decreases names.len(),
{
    if names.len() > 0 {
        let head = names.drop_last();
        lemma_seen(entries, root, head);
        if let Some(list) = candidates::seen_on_the_way(entries, root, names) {
            let before = candidates::seen_on_the_way(entries, root, head)->0;
            assert forall|i: int| 0 <= i < list.len() implies (#[trigger] list[i]).0 == names[i]
                && path::is_name(names[i]) && (candidates::entry_at(
                entries,
                candidates::down(root, names.take(i + 1)),
            ) matches Some(seen) && seen.kind == ResourceKind::Directory && seen.identity
                == list[i].1) by {
                if i < before.len() {
                    assert(list[i] == before[i]);
                    assert(head[i] == names[i]);
                    assert(head.take(i + 1) =~= names.take(i + 1));
                } else {
                    assert(names.take(i + 1) =~= names);
                }
            }
        }
    }
}

/// A root to open bundles from is an absolute path below the root of the file system that leads
/// nowhere upwards.
pub proof fn bundle_roots_are_proper(root: Seq<u8>)
    ensures
        bundle::proper_root(root) <==> {
            &&& root.len() > 0 && root[0] == 0x2f
            &&& path::components(root).len() > 0
            &&& !path::has_piece(root, seq![0x2eu8, 0x2e])
        },
{
    assert(seq![0x2eu8, 0x2e] =~= seq![path::DOT, path::DOT]);
    if path::piece_at(root, seq![path::DOT], 0) {
        assert(root.subrange(0, 1)[0] == root[0]);
        assert(seq![path::DOT][0] == path::DOT);
    }
}

/// The names on the way to an opened bundle are single steps.
pub proof fn ways_lead_by_single_steps(location: BundleLocation, look: OpenLook, i: int)
    requires
        bundle::opened(location, look) is Ok,
        0 <= i < location.ancestors@.len(),
    ensures
        path::steps(location.ancestors@[i].0@).len() == 1,
        bundle::opened(location, look)->Ok_0.names[i] == location.ancestors@[i].0@,
{
    lemma_single_steps(location.ancestors@, look.ancestors@, i);
}

proof fn lemma_single_steps(
    ancestors: Seq<(Vec<u8>, FileIdentity)>,
    looks: Seq<HeldLook>,
    i: int,
)
    requires
        bundle::opened_chain(ancestors, looks) is Ok,
        0 <= i < ancestors.len(),
    ensures
        path::steps(ancestors[i].0@).len() == 1,
    decreases ancestors.len(),
{
    let head = ancestors.drop_last();
    if i < head.len() {
        assert(head[i] == ancestors[i]);
        lemma_single_steps(head, looks, i);
    }
}

/// Candidates beyond the limit make an inventory partial, with an issue that says so; those
/// within it change nothing but their number.
pub proof fn too_many_candidates_are_reported(report: ScanReport, options: AppInventoryOptions)
    requires
        report.entries@.len() < usize::MAX,
        options.limits.max_candidates < usize::MAX,
        options.limits.max_issues > 0,
    ensures
        ({
            let all = inventory_run::all_candidates(report, options);
            let seen = inventory_run::selected(report, options);
            &&& all.len() <= options.limits.max_candidates ==> seen.counts.named_candidates
                == all.len() && seen.issues.len() == 0 && seen.complete == (report.status
                == ScanStatus::Complete)
            &&& all.len() > options.limits.max_candidates ==> seen.counts.named_candidates
                == options.limits.max_candidates + 1 && !seen.complete && seen.status
                == AppInventoryStatus::Partial && seen.issues.len() == 1
                && seen.issues[0].fault.code == AppIssueCode::CandidateLimit
            &&& seen.apps.len() == 0
            &&& seen.counts.scan_entries == report.entries@.len()
        }),
{
    lemma_candidates_bound(
        candidates::entry_views(report.entries@),
        options.filter@,
        path::views(options.excludes@),
        report.entries@.len() as int,
    );
}

proof fn lemma_candidates_bound(
    entries: Seq<EntryView>,
    filter: Seq<char>,
    excludes: Seq<Seq<u8>>,
    upto: int,
)
    requires
        0 <= upto,
    ensures
        candidates::candidate_places(entries, filter, excludes, upto).len() <= upto,
    decreases upto,
{
    if upto > 0 {
        lemma_candidates_bound(entries, filter, excludes, upto - 1);
    }
}

/// An inventory starts as far as its scan got, complete only if that was, with the scan's counts
/// and nothing of its own.
pub proof fn inventories_start_where_the_scan_ended(report: ScanReport)
    requires
        report.entries@.len() <= usize::MAX,
        report.issues@.len() <= usize::MAX,
    ensures
        ({
            let start = inventory_run::empty_inventory(report);
            &&& start.complete <==> report.status == ScanStatus::Complete
            &&& start.status == AppInventoryStatus::Complete <==> report.status
                == ScanStatus::Complete
            &&& start.status == AppInventoryStatus::Partial <==> report.status
                == ScanStatus::Partial
            &&& start.status == AppInventoryStatus::Cancelled <==> report.status
                == ScanStatus::Cancelled
            &&& start.status == AppInventoryStatus::Failed <==> report.status == ScanStatus::Failed
            &&& start.omitted == report.issues_omitted
            &&& start.counts.scan_entries == report.entries@.len()
            &&& start.counts.scan_issues == report.issues@.len()
            &&& start.counts.inspected_candidates == 0
            &&& start.apps.len() == 0 && start.issues.len() == 0
        }),
{
}

/// An issue is listed while there is room, and only counted then.
pub proof fn issues_are_listed_up_to_the_limit(
    inventory: InventoryView,
    issue: IssueView,
    limits: AppInventoryLimits,
)
    requires
        inventory.omitted < usize::MAX,
    ensures
        inventory.issues.len() < limits.max_issues ==> inventory.with_issue(issue, limits) == (
        InventoryView { issues: inventory.issues.push(issue), ..inventory }),
        inventory.issues.len() >= limits.max_issues ==> inventory.with_issue(issue, limits) == (
        InventoryView { omitted: (inventory.omitted + 1) as usize, ..inventory }),
{
}

/// A policy that could not be restored is always reported, behind what went wrong before; an
/// inspection ends well exactly if nothing changed and the policy was restored.
pub proof fn unrestored_policies_are_reported(
    validation: Option<AppFault>,
    restored: Result<(), Seq<char>>,
)
    ensures
        bundle_check::finish_fault(validation, restored) is None <==> validation is None
            && restored is Ok,
        restored is Err ==> (bundle_check::finish_fault(validation, restored) matches Some(found)
            && found.code == AppIssueCode::PolicyFailure),
        restored is Ok && validation is Some ==> bundle_check::finish_fault(validation, restored)
            == validation,
        validation matches Some(found) && restored is Err ==> bundle_check::finish_fault(
            validation,
            restored,
        ) == Some(
            probe::fault(
                AppIssueCode::PolicyFailure,
                validation->0.message + "; "@ + "read-only policy restore failed: "@
                    + restored->Err_0,
            ),
        ),
{
    if validation is Some && restored is Err {
        assert(validation->0.message + "; "@ + ("read-only policy restore failed: "@
            + restored->Err_0) =~= validation->0.message + "; "@
            + "read-only policy restore failed: "@ + restored->Err_0);
    }
}

/// What is not there is missing, what is a link is not followed, and any other failure to look
/// is one of the inspection.
pub proof fn unseen_executables_are_missing_or_links(
    failure: bundle::IoFailure,
    context: Seq<char>,
)
    ensures
        failure.kind == IoKind::NotFound ==> bundle_check::unseen(failure, context) == Ok::<
            PathStatus,
            AppFault,
        >(PathStatus::Missing),
        failure.kind == IoKind::Loop ==> bundle_check::unseen(failure, context) == Ok::<
            PathStatus,
            AppFault,
        >(PathStatus::NotFollowedSymlink),
        failure.kind != IoKind::NotFound && failure.kind != IoKind::Loop ==> bundle_check::unseen(
            failure,
            context,
        ) is Err,
{
}

/// The executable that was seen, or was not there, has to be so again under both ways to it.
pub proof fn executables_are_looked_at_again(
    observation: ExecutableObservation,
    looks: LeafLooks,
)
    ensures
        bundle_check::executable_change(Some(observation), looks) is None <==> match observation {
            ExecutableObservation::Missing => {
                &&& looks.held matches Err(failure) && failure.kind == IoKind::NotFound
                &&& looks.remapped matches Err(failure) && failure.kind == IoKind::NotFound
            },
            ExecutableObservation::Present(stamp) => {
                &&& looks.held matches Ok(raw) && raw.stamp() == Ok::<bundle::FileStamp, AppFault>(
                    stamp,
                ) && raw.flags & 0x4000_0000 == 0
                &&& looks.remapped matches Ok(raw) && raw.stamp() == Ok::<
                    bundle::FileStamp,
                    AppFault,
                >(stamp) && raw.flags & 0x4000_0000 == 0
            },
        },
        bundle_check::executable_change(None, looks) is None,
{
}

/// The identifier of one bundle is read exactly from a regular file of bounded size that could
/// be read and parsed; each way to fail has words of its own.
pub proof fn identifiers_are_read_from_bounded_files(
    look: PlistLook,
    limits: AppInventoryLimits,
    mode: AppInventoryMetadataReadMode,
)
    ensures
        bundle_record::identifier(look, limits, mode) is Ok ==> bundle_record::reaches_parser(
            look,
            limits,
        ),
        bundle_record::reaches_parser(look, limits) <==> (look matches PlistLook::File {
            length,
            bytes,
        } && length <= limits.max_info_plist_bytes && bytes is Some),
        look matches PlistLook::File { length, bytes } && length
            > limits.max_info_plist_bytes ==> bundle_record::identifier(look, limits, mode) == Err::<
            FieldView,
            Seq<char>,
        >("Info.plist exceeds the single-file budget"@),
        look matches PlistLook::File { length, bytes } && length <= limits.max_info_plist_bytes
            && bytes is None ==> bundle_record::identifier(look, limits, mode) == Err::<
            FieldView,
            Seq<char>,
        >("Info.plist cannot be read"@),
        look == PlistLook::NotFound ==> bundle_record::identifier(look, limits, mode) == Err::<
            FieldView,
            Seq<char>,
        >("Info.plist is missing"@),
        bundle_record::reaches_parser(look, limits) ==> (bundle_record::identifier(
            look,
            limits,
            mode,
        ) matches Ok(field) ==> (look matches PlistLook::File { length, bytes }
            && bundle_record::info_plist(
            bytes->0@,
            limits,
            mode,
            (ProbeBudget { io_bytes: 0, retained_bytes: 0, visited_refs: 0 }),
        ).0 matches Ok(parsed) && parsed.bundle_id == field)),
{
}

/// A property list is read piece by piece, each charged and put behind the others; an end that
/// comes too early is an error.
pub proof fn property_lists_are_read_piece_by_piece(
    read: Seq<u8>,
    piece: Result<Seq<u8>, AppFault>,
    limits: AppInventoryLimits,
    budget: ProbeBudget,
)
    requires
        piece matches Ok(bytes) ==> bytes.len() <= u64::MAX,
    ensures
        ({
            let (result, after) = bundle_record::read_step(read, piece, limits, budget);
            &&& result is Ok <==> (piece matches Ok(bytes) && bytes.len() > 0 && budget.io_bytes
                + bytes.len() <= limits.max_total_plist_io_bytes)
            &&& result matches Ok(whole) ==> whole == read + piece->Ok_0 && after.io_bytes
                == budget.io_bytes + piece->Ok_0.len()
            &&& result is Err ==> after == budget
            &&& piece matches Err(found) ==> result == Err::<Seq<u8>, AppFault>(found)
        }),
{
}

} // verus!
