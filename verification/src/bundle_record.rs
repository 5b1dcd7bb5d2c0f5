//! What an inspected bundle says of itself.

use crate::app_inventory;
use crate::app_inventory::{
    AppInventoryLimits, AppInventoryMetadataReadMode, AppIssueCode, AppKind, AppRecord,
    BundleIdentifierRead, ExecutableMetadata, ExecutableView, FieldView, NameSource, PathStatus,
    PlistFormat, RecordView, RunningObservation, RunningView, StringField, StringState,
};
use crate::bundle;
use crate::bundle::IoFailure;
use crate::bundle_check;
use crate::model::FileIdentity;
use crate::path;
use crate::plist;
use crate::plist::{ParsedPlist, ParsedView};
use crate::plist_binary;
use crate::plist_xml;
use crate::probe;
use crate::probe::{AppError, AppFault, Cancellation, ProbeBudget, ProbeContext};
use crate::text;
use crate::unicode;
use vstd::prelude::*;
use vstd::string::*;
use vstd::utf8;

verus! {

/// The white space that may stand before an XML document.
pub open spec fn is_ascii_space(byte: u8) -> bool {
    byte == 0x20 || byte == 0x09 || byte == 0x0A || byte == 0x0C || byte == 0x0D
}

/// A document without the white space at its start.
pub open spec fn unspaced(bytes: Seq<u8>) -> Seq<u8>
    decreases bytes.len(),
{
    if bytes.len() > 0 && is_ascii_space(bytes[0]) {
        unspaced(bytes.drop_first())
    } else {
        bytes
    }
}

/// Whether a document looks like a property list in XML.
pub open spec fn looks_like_xml(bytes: Seq<u8>) -> bool {
    let start = unspaced(bytes);
    ||| text::has_prefix(start, utf8::encode_utf8("<?xml"@))
    ||| text::has_prefix(start, utf8::encode_utf8("<plist"@))
    ||| text::has_prefix(start, utf8::encode_utf8("<!DOCTYPE"@))
}

/// What a property list gives, and what reading it costs.
pub open spec fn info_plist(
    bytes: Seq<u8>,
    limits: AppInventoryLimits,
    mode: AppInventoryMetadataReadMode,
    budget: ProbeBudget,
) -> (Result<ParsedView, AppFault>, ProbeBudget) {
    if text::has_prefix(bytes, plist_binary::magic()) {
        plist_binary::binary_plist(bytes, limits, mode, budget)
    } else if looks_like_xml(bytes) {
        plist_xml::xml_plist(plist_xml::xml_events(bytes), limits, mode, budget)
    } else {
        (
            Err(
                probe::fault(AppIssueCode::UnsupportedPlistFormat, "unsupported plist format"@),
            ),
            budget,
        )
    }
}

/// Why a property list is refused before any of it is parsed.
pub open spec fn format_fault(bytes: Seq<u8>, limits: AppInventoryLimits) -> Option<AppFault> {
    if text::has_prefix(bytes, plist_binary::magic()) {
        plist_binary::header_fault(bytes, limits)
    } else if looks_like_xml(bytes) {
        None
    } else {
        Some(probe::fault(AppIssueCode::UnsupportedPlistFormat, "unsupported plist format"@))
    }
}

fn starts_like_xml(bytes: &[u8]) -> (answer: bool)
    ensures
        answer == looks_like_xml(bytes@),
{
    let mut from: usize = 0;
    let count: usize = bytes.len();
    assert(bytes@.skip(0) =~= bytes@);
    while from < count && (bytes[from] == 0x20 || bytes[from] == 0x09 || bytes[from] == 0x0A
        || bytes[from] == 0x0C || bytes[from] == 0x0D)
        invariant
            0 <= from <= count,
            count == bytes@.len(),
            unspaced(bytes@) == unspaced(bytes@.skip(from as int)),
        decreases count - from,
    {
        assert(bytes@.skip(from as int).drop_first() =~= bytes@.skip(from + 1));
        from += 1;
    }
    let start = text::slice_bytes(bytes, from, count);
    assert(start@ =~= bytes@.skip(from as int));
    text::bytes_have_prefix(start.as_slice(), "<?xml".as_bytes()) || text::bytes_have_prefix(
        start.as_slice(),
        "<plist".as_bytes(),
    ) || text::bytes_have_prefix(start.as_slice(), "<!DOCTYPE".as_bytes())
}

/// Reads a property list, unless it is stopped. What its format refuses is refused whatever the
/// clock says.
pub fn parse_info_plist(bytes: &[u8], context: &ProbeContext<'_>, budget: &mut ProbeBudget) -> (
    result: Result<ParsedPlist, AppError>)
    ensures
        final(budget).grown_from(*old(budget)),
        context.stopped(result) || (plist::parsed_result(result), *final(budget)) == info_plist(
            bytes@,
            context.limits,
            context.metadata_read_mode,
            *old(budget),
        ),
        format_fault(bytes@, context.limits) matches Some(found) ==> result matches Err(error)
            && error@ == found && *final(budget) == *old(budget),
{
    if text::bytes_have_prefix(bytes, "bplist00".as_bytes()) {
        return plist_binary::parse_binary_plist(bytes, context, budget);
    }
    if starts_like_xml(bytes) {
        return plist_xml::parse_xml_plist(bytes, context, budget);
    }
    Err(AppError::new(AppIssueCode::UnsupportedPlistFormat, "unsupported plist format"))
}

/// What is seen of the property list of one bundle.
#[derive(Debug)]
pub enum PlistLook {
    NotAFile,
    NotFound,
    NotInspected,
    /// A regular file, with what reading it gave.
    File { length: u64, bytes: Option<Vec<u8>> },
}

/// The time that reading one property list may take.
pub const SINGLE_PLIST_NANOS: u128 = 5_000_000_000;

/// What a property list says of the bundle's identifier, where the clock does not decide.
pub open spec fn identifier(
    look: PlistLook,
    limits: AppInventoryLimits,
    mode: AppInventoryMetadataReadMode,
) -> Result<FieldView, Seq<char>> {
    match look {
        PlistLook::NotAFile => Err("Info.plist is not a regular file"@),
        PlistLook::NotFound => Err("Info.plist is missing"@),
        PlistLook::NotInspected => Err("Info.plist cannot be inspected"@),
        PlistLook::File { length, bytes } => if length > limits.max_info_plist_bytes {
            Err("Info.plist exceeds the single-file budget"@)
        } else {
            match bytes {
                None => Err("Info.plist cannot be read"@),
                Some(bytes) => match info_plist(
                    bytes@,
                    limits,
                    mode,
                    (ProbeBudget { io_bytes: 0, retained_bytes: 0, visited_refs: 0 }),
                ).0 {
                    Ok(parsed) => Ok(parsed.bundle_id),
                    Err(_) => Err("Info.plist cannot be parsed"@),
                },
            }
        },
    }
}

/// Whether the property list is read and parsed at all.
pub open spec fn reaches_parser(look: PlistLook, limits: AppInventoryLimits) -> bool {
    look matches PlistLook::File { length, bytes } && length <= limits.max_info_plist_bytes
        && bytes is Some
}

/// Whether something can stop an inspection.
pub open spec fn may_be_stopped(context: ProbeContext<'_>) -> bool {
    context.cancellation.can_be_raised() || context.budget_nanos <= probe::LONGEST_NANOS
}

/// Reads only the identifier of one bundle. A parser that is stopped is one that fails.
pub fn identify(look: &PlistLook, context: &ProbeContext<'_>) -> (result: BundleIdentifierRead)
    ensures
        match result {
            BundleIdentifierRead::Parsed(field) => identifier(
                *look,
                context.limits,
                context.metadata_read_mode,
            ) == Ok::<FieldView, Seq<char>>(field@),
            BundleIdentifierRead::Unreadable(reason) => {
                ||| identifier(*look, context.limits, context.metadata_read_mode) == Err::<
                    FieldView,
                    Seq<char>,
                >(reason@)
                ||| may_be_stopped(*context) && reaches_parser(*look, context.limits) && reason@
                    == "Info.plist cannot be parsed"@
            },
        },
{
    match look {
        PlistLook::NotAFile => BundleIdentifierRead::Unreadable("Info.plist is not a regular file"),
        PlistLook::NotFound => BundleIdentifierRead::Unreadable("Info.plist is missing"),
        PlistLook::NotInspected => BundleIdentifierRead::Unreadable(
            "Info.plist cannot be inspected",
        ),
        PlistLook::File { length, bytes } => {
            if *length > context.limits.max_info_plist_bytes {
                return BundleIdentifierRead::Unreadable(
                    "Info.plist exceeds the single-file budget",
                );
            }
            match bytes {
                None => BundleIdentifierRead::Unreadable("Info.plist cannot be read"),
                Some(bytes) => {
                    let mut budget = ProbeBudget::new();
                    match parse_info_plist(bytes.as_slice(), context, &mut budget) {
                        Ok(parsed) => BundleIdentifierRead::Parsed(parsed.bundle_id),
                        Err(_) => BundleIdentifierRead::Unreadable("Info.plist cannot be parsed"),
                    }
                },
            }
        },
    }
}

/// Reads only the identifier of one bundle, within the time that one property list may
/// take. Where the property list is parsed, the parser may run out of that time.
pub fn read_bundle_identifier(look: &PlistLook) -> (result: BundleIdentifierRead)
    ensures
        match result {
            BundleIdentifierRead::Parsed(field) => identifier(
                *look,
                app_inventory::default_limits(),
                AppInventoryMetadataReadMode::Baseline,
            ) == Ok::<FieldView, Seq<char>>(field@),
            BundleIdentifierRead::Unreadable(reason) => {
                ||| identifier(
                    *look,
                    app_inventory::default_limits(),
                    AppInventoryMetadataReadMode::Baseline,
                ) == Err::<FieldView, Seq<char>>(reason@)
                ||| reaches_parser(*look, app_inventory::default_limits()) && reason@
                    == "Info.plist cannot be parsed"@
            },
        },
{
    let cancellation = Cancellation::never();
    let context = ProbeContext::start(
        &cancellation,
        SINGLE_PLIST_NANOS,
        AppInventoryLimits::default(),
        AppInventoryMetadataReadMode::Baseline,
    );
    identify(look, &context)
}

/// The number of bytes that are read at a time.
pub const CHUNK: usize = 65_536;

/// A property list that is being read.
#[derive(Debug)]
pub struct PlistRead {
    pub bytes: Vec<u8>,
    pub total: usize,
}

/// Why a property list is not read.
pub open spec fn read_refusal(size: u64, limits: AppInventoryLimits, budget: ProbeBudget) -> Option<
    AppFault,
> {
    if size > limits.max_info_plist_bytes {
        Some(
            probe::fault(
                AppIssueCode::PlistSizeLimit,
                "Info.plist exceeds per-file size limit"@,
            ),
        )
    } else if probe::io_fault(budget.io_bytes, size, limits) is Some {
        probe::io_fault(budget.io_bytes, size, limits)
    } else if size > usize::MAX {
        Some(plist::over_limit("Info.plist too large"@))
    } else {
        None
    }
}

/// What a piece of a property list comes to.
pub open spec fn read_step(
    read: Seq<u8>,
    piece: Result<Seq<u8>, AppFault>,
    limits: AppInventoryLimits,
    budget: ProbeBudget,
) -> (Result<Seq<u8>, AppFault>, ProbeBudget) {
    match piece {
        Err(found) => (Err(found), budget),
        Ok(piece) => if piece.len() == 0 {
            (Err(plist::malformed("unexpected end of Info.plist"@)), budget)
        } else {
            match budget.after_io(piece.len() as u64, limits) {
                (Err(found), after) => (Err(found), after),
                (Ok(()), after) => (Ok(read + piece), after),
            }
        },
    }
}

impl PlistRead {
    /// Starts to read a property list of the given size.
    pub fn start(size: u64, context: &ProbeContext<'_>, budget: &ProbeBudget) -> (result: Result<
        PlistRead,
        AppError,
    >)
        ensures
            match result {
                Ok(read) => {
                    &&& read_refusal(size, context.limits, *budget) is None
                    &&& read.bytes@.len() == 0
                    &&& read.total == size
                },
                Err(error) => {
                    ||| context.stopped(result)
                    ||| read_refusal(size, context.limits, *budget) == Some(error@)
                },
            },
    {
        if let Err(error) = context.check() {
            return Err(error);
        }
        if size > context.limits.max_info_plist_bytes {
            return Err(
                AppError::new(
                    AppIssueCode::PlistSizeLimit,
                    "Info.plist exceeds per-file size limit",
                ),
            );
        }
        if let Err(error) = budget.preflight_io(size, context.limits) {
            return Err(error);
        }
        if size > usize::MAX as u64 {
            return Err(plist::limit_error("Info.plist too large"));
        }
        Ok(PlistRead { bytes: Vec::new(), total: size as usize })
    }

    /// How many bytes to read next: none when all of them have been read.
    pub fn wanted(&self) -> (count: usize)
        requires
            self.bytes@.len() <= self.total,
        ensures
            count == if self.total - self.bytes@.len() < CHUNK {
                self.total - self.bytes@.len()
            } else {
                CHUNK as int
            },
    {
        let left: usize = self.total - self.bytes.len();
        if left < CHUNK {
            left
        } else {
            CHUNK
        }
    }

    /// Takes a piece that was read.
    pub fn take(
        &mut self,
        piece: &Result<Vec<u8>, IoFailure>,
        limits: AppInventoryLimits,
        budget: &mut ProbeBudget,
    ) -> (result: Result<(), AppError>)
        requires
            piece matches Ok(piece) ==> old(self).bytes@.len() + piece@.len() <= old(self).total,
        ensures
            final(self).total == old(self).total,
            ({
                let (outcome, after) = read_step(
                    old(self).bytes@,
                    match *piece {
                        Ok(piece) => Ok(piece@),
                        Err(failure) => Err(bundle::errno_fault(failure, "read Info.plist"@)),
                    },
                    limits,
                    *old(budget),
                );
                &&& *final(budget) == after
                &&& match result {
                    Ok(()) => {
                        &&& outcome == Ok::<Seq<u8>, AppFault>(final(self).bytes@)
                        &&& old(self).bytes@.len() < final(self).bytes@.len() <= final(self).total
                    },
                    Err(error) => outcome == Err::<Seq<u8>, AppFault>(error@),
                }
            }),
    {
        match piece {
            Err(failure) => Err(bundle::map_errno(failure, "read Info.plist")),
            Ok(piece) => {
                if piece.len() == 0 {
                    return Err(plist::malformed_error("unexpected end of Info.plist"));
                }
                if let Err(error) = budget.charge_io(piece.len() as u64, limits) {
                    return Err(error);
                }
                text::append_bytes(&mut self.bytes, piece.as_slice());
                Ok(())
            },
        }
    }
}

/// Whether a name can be the name of one file in a directory.
pub open spec fn is_single_name(value: Seq<char>) -> bool {
    &&& value.len() > 0
    &&& !value.contains('/')
    &&& !value.contains('\0')
    &&& value != "."@
    &&& value != ".."@
}

/// Whether a name can be the name of one file in a directory.
pub fn valid_single_component_executable(value: &str) -> (valid: bool)
    ensures
        valid == is_single_name(value@),
{
    let list = unicode::characters(value);
    if list.len() == 0 || text::text_eq(value, ".") || text::text_eq(value, "..") {
        return false;
    }
    let mut i: usize = 0;
    while i < list.len()
        invariant
            0 <= i <= list@.len(),
            list@ == value@,
            forall|j: int| 0 <= j < i ==> list@[j] != '/' && list@[j] != '\0',
        decreases list@.len() - i,
    {
        if list[i] == '/' {
            assert(value@.contains('/'));
            return false;
        }
        if list[i] == '\0' {
            assert(value@.contains('\0'));
            return false;
        }
        i += 1;
    }
    true
}

/// The name that a bundle has by its path.
pub open spec fn filename_title(path: Seq<u8>) -> Seq<char> {
    match path::file_name(path) {
        None => "(unknown)"@,
        Some(name) => match unicode::utf8_text(path::stem(name)) {
            Some(title) => title,
            None => "(unknown)"@,
        },
    }
}

fn title_of(path: &[u8]) -> (title: String)
    ensures
        title@ == filename_title(path@),
{
    match path::name_of(path) {
        None => "(unknown)".to_owned(),
        Some(name) => {
            let stem = path::stem_of(name.as_slice());
            match unicode::from_utf8(stem.as_slice()) {
                Some(title) => title,
                None => "(unknown)".to_owned(),
            }
        },
    }
}

/// The record of a bundle of which nothing could be read.
pub open spec fn unread(path: Seq<u8>, identity: FileIdentity) -> RecordView {
    RecordView {
        path,
        roots: Seq::empty(),
        identity,
        kind: AppKind::Unknown,
        format: PlistFormat::Unsupported,
        name: filename_title(path),
        source: NameSource::BundleFilenameFallback,
        localized: false,
        bundle_id: app_inventory::absent_field(),
        short_version: app_inventory::absent_field(),
        build_version: app_inventory::absent_field(),
        package_type: app_inventory::absent_field(),
        product_dir: app_inventory::absent_field(),
        executable: ExecutableView {
            state: StringState::Missing,
            declared: None,
            status: PathStatus::NotChecked,
        },
        running: RunningView::NotChecked,
    }
}

/// The record of a bundle of which nothing could be read.
pub fn unknown_record(path: &[u8], identity: FileIdentity) -> (record: AppRecord)
    ensures
        record@ == unread(path@, identity),
{
    let observed_roots: Vec<Vec<u8>> = Vec::new();
    assert(path::views(observed_roots@) =~= Seq::empty());
    AppRecord {
        bundle_path: text::copy_bytes(path),
        observed_roots,
        bundle_identity: identity,
        app_kind: AppKind::Unknown,
        parser_format: PlistFormat::Unsupported,
        display_name: title_of(path),
        display_name_source: NameSource::BundleFilenameFallback,
        localized: false,
        bundle_id: StringField::missing(),
        short_version: StringField::missing(),
        build_version: StringField::missing(),
        package_type: StringField::missing(),
        declared_product_dir_name: StringField::missing(),
        executable: ExecutableMetadata {
            state: StringState::Missing,
            declared_value: None,
            path_status: PathStatus::NotChecked,
        },
        running: RunningObservation::NotChecked,
    }
}

/// The name shown for a bundle, and where it comes from.
pub open spec fn shown_name(parsed: ParsedView, path: Seq<u8>) -> (Seq<char>, NameSource) {
    if parsed.display_name.state == StringState::Present {
        (text_or_empty(parsed.display_name.value), NameSource::BundleDisplayName)
    } else if parsed.bundle_name.state == StringState::Present {
        (text_or_empty(parsed.bundle_name.value), NameSource::BundleNameFallback)
    } else {
        (filename_title(path), NameSource::BundleFilenameFallback)
    }
}

pub open spec fn text_or_empty(value: Option<Seq<char>>) -> Seq<char> {
    match value {
        Some(text) => text,
        None => Seq::empty(),
    }
}

/// What a bundle declares itself to be.
pub open spec fn declared_kind(package_type: FieldView) -> AppKind {
    if package_type.state == StringState::Present && package_type.value is Some {
        if package_type.value == Some("APPL"@) {
            AppKind::App
        } else {
            AppKind::NonApp
        }
    } else {
        AppKind::Unknown
    }
}

/// The executable to look for, if the bundle declares one by a proper name.
pub open spec fn declared_executable(executable: FieldView) -> Option<Seq<char>> {
    match executable.value {
        Some(name) if executable.state == StringState::Present && is_single_name(name) => Some(name),
        _ => None,
    }
}

/// What is said of the executable's path.
pub open spec fn executable_path(executable: FieldView, looked: Option<PathStatus>) -> PathStatus {
    if executable.state == StringState::Present && executable.value is Some {
        match looked {
            Some(status) if is_single_name(executable.value->0) => status,
            _ => PathStatus::InvalidDeclaredPath,
        }
    } else {
        PathStatus::NotChecked
    }
}

/// The record of a bundle that was read.
pub open spec fn described(
    path: Seq<u8>,
    identity: FileIdentity,
    parsed: ParsedView,
    looked: Option<PathStatus>,
) -> RecordView {
    RecordView {
        path,
        roots: Seq::empty(),
        identity,
        kind: declared_kind(parsed.package_type),
        format: parsed.format,
        name: shown_name(parsed, path).0,
        source: shown_name(parsed, path).1,
        localized: false,
        bundle_id: parsed.bundle_id,
        short_version: parsed.short_version,
        build_version: parsed.build_version,
        package_type: parsed.package_type,
        product_dir: parsed.product_dir,
        executable: ExecutableView {
            state: parsed.executable.state,
            declared: parsed.executable.value,
            status: executable_path(parsed.executable, looked),
        },
        running: RunningView::NotChecked,
    }
}

/// The executable to look for, if the bundle declares one by a proper name.
pub fn executable_to_check(parsed: &ParsedPlist) -> (name: Option<String>)
    ensures
        text::opt_text(name) == declared_executable(parsed@.executable),
{
    match &parsed.executable.value {
        Some(name) => if parsed.executable.state == StringState::Present
            && valid_single_component_executable(name.as_str()) {
            Some(name.clone())
        } else {
            None
        },
        None => None,
    }
}

fn copied_or_empty(value: &Option<String>) -> (copy: String)
    ensures
        copy@ == text_or_empty(text::opt_text(*value)),
{
    match value {
        Some(text) => text.clone(),
        None => {
            let copy = String::new();
            assert(copy@ =~= Seq::empty());
            copy
        },
    }
}

pub open spec fn record_result(result: Result<AppRecord, AppError>) -> Result<
    RecordView,
    AppFault,
> {
    match result {
        Ok(record) => Ok(record@),
        Err(error) => Err(error@),
    }
}

/// What the inspection of a bundle gives: a bundle that changed meanwhile is refused before
/// anything else.
pub open spec fn inspected(
    path: Seq<u8>,
    identity: FileIdentity,
    parsed: ParsedView,
    looked: Option<Result<PathStatus, AppFault>>,
    finished: Option<AppFault>,
) -> Result<RecordView, AppFault> {
    match finished {
        Some(found) => Err(found),
        None => match looked {
            Some(Err(found)) => Err(found),
            Some(Ok(status)) => Ok(described(path, identity, parsed, Some(status))),
            None => Ok(described(path, identity, parsed, None)),
        },
    }
}

pub open spec fn looked_view(looked: Option<Result<PathStatus, AppError>>) -> Option<
    Result<PathStatus, AppFault>,
> {
    match looked {
        Some(result) => Some(bundle_check::status_result(result)),
        None => None,
    }
}

/// Completes the inspection of a bundle whose property list was read. `looked` is what was
/// found of the executable, where the bundle declares one by a proper name, and `finished`
/// what came of ending the inspection.
pub fn inspect_bundle(
    path: &[u8],
    identity: FileIdentity,
    parsed: ParsedPlist,
    looked: Option<Result<PathStatus, AppError>>,
    finished: Result<(), AppError>,
) -> (result: Result<AppRecord, AppError>)
    requires
        looked is Some == declared_executable(parsed@.executable) is Some,
    ensures
        record_result(result) == inspected(
            path@,
            identity,
            parsed@,
            looked_view(looked),
            bundle_check::found_in(finished),
        ),
{
    if let Err(error) = finished {
        return Err(error);
    }
    let status: Option<PathStatus> = match looked {
        Some(Err(error)) => {
            return Err(error);
        },
        Some(Ok(status)) => Some(status),
        None => None,
    };
    let (display_name, display_name_source): (String, NameSource) = if parsed.display_name.state
        == StringState::Present {
        (copied_or_empty(&parsed.display_name.value), NameSource::BundleDisplayName)
    } else if parsed.bundle_name.state == StringState::Present {
        (copied_or_empty(&parsed.bundle_name.value), NameSource::BundleNameFallback)
    } else {
        (title_of(path), NameSource::BundleFilenameFallback)
    };
    let app_kind: AppKind = match &parsed.package_type.value {
        Some(value) => if parsed.package_type.state == StringState::Present {
            if text::text_eq(value.as_str(), "APPL") {
                AppKind::App
            } else {
                AppKind::NonApp
            }
        } else {
            AppKind::Unknown
        },
        None => AppKind::Unknown,
    };
    let path_status: PathStatus = if parsed.executable.state == StringState::Present
        && parsed.executable.value.is_some() {
        match status {
            Some(status) => status,
            None => PathStatus::InvalidDeclaredPath,
        }
    } else {
        PathStatus::NotChecked
    };
    let observed_roots: Vec<Vec<u8>> = Vec::new();
    assert(path::views(observed_roots@) =~= Seq::empty());
    Ok(
        AppRecord {
            bundle_path: text::copy_bytes(path),
            observed_roots,
            bundle_identity: identity,
            app_kind,
            parser_format: parsed.format,
            display_name,
            display_name_source,
            localized: false,
            bundle_id: parsed.bundle_id,
            short_version: parsed.short_version,
            build_version: parsed.build_version,
            package_type: parsed.package_type,
            declared_product_dir_name: parsed.cr_product_dir_name,
            executable: ExecutableMetadata {
                state: parsed.executable.state,
                declared_value: parsed.executable.value,
                path_status,
            },
            running: RunningObservation::NotChecked,
        },
    )
}

} // verus!
