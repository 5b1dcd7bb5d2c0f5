use sayaka_engine::app_inventory::{
    AppInventoryLimits, AppInventoryMetadataReadMode, AppInventoryOptions, AppInventoryStatus,
    AppIssueCode, BundleIdentifierRead, ExecutableMetadata, PathStatus, RunningObservation,
    ScanEntry, ScanReport, ScanStatus, StringState,
};
use sayaka_engine::bundle::{
    BundleLocation, HeldLook, InspectedBundle, IoFailure, IoKind, Moment, OpenLook, RawStat,
};
use sayaka_engine::bundle_check::{ExecutableLook, LeafLooks, RecheckLook};
use sayaka_engine::bundle_record::{
    inspect_bundle, parse_info_plist, read_bundle_identifier, unknown_record,
    valid_single_component_executable, PlistLook, PlistRead,
};
use sayaka_engine::candidates::{collect_excluded_identities, ExclusionMatcher};
use sayaka_engine::inventory_run::{inventory_apps, Due};
use sayaka_engine::model::{FileIdentity, Host, ResourceKind};
use sayaka_engine::plist::ParsedPlist;
use sayaka_engine::plist_binary::{parse_binary_plist, read_be_uint};
use sayaka_engine::plist_xml::parse_xml_plist;
use sayaka_engine::probe::{AppError, Cancellation, ProbeBudget, ProbeContext, Reading};
use sayaka_engine::running::{
    attribute_running_state, executable_candidate, running_observation, running_process_paths,
    RunningPath,
};

const SECOND: u128 = 1_000_000_000;

fn context<'a>(
    cancellation: &'a Cancellation,
    limits: AppInventoryLimits,
    mode: AppInventoryMetadataReadMode,
) -> ProbeContext<'a> {
    ProbeContext::start(cancellation, SECOND, limits, mode)
}

fn parse_xml_for_mode(xml: &[u8], mode: AppInventoryMetadataReadMode) -> ParsedPlist {
    let cancellation = Cancellation::new();
    let context = context(&cancellation, AppInventoryLimits::default(), mode);
    parse_xml_plist(xml, &context, &mut ProbeBudget::new()).expect("xml parse")
}

fn parse_xml_for_test(xml: &[u8]) -> ParsedPlist {
    parse_xml_for_mode(xml, AppInventoryMetadataReadMode::Baseline)
}

fn parse_xml_error_for_test(xml: &[u8]) -> AppError {
    let cancellation = Cancellation::new();
    let context = context(
        &cancellation,
        AppInventoryLimits::default(),
        AppInventoryMetadataReadMode::Baseline,
    );
    match parse_xml_plist(xml, &context, &mut ProbeBudget::new()) {
        Ok(_) => panic!("expected XML parser error"),
        Err(error) => error,
    }
}

fn parse_binary_for_mode(bytes: &[u8], mode: AppInventoryMetadataReadMode) -> ParsedPlist {
    let cancellation = Cancellation::new();
    let context = context(&cancellation, AppInventoryLimits::default(), mode);
    parse_binary_plist(bytes, &context, &mut ProbeBudget::new()).expect("binary parse")
}

fn single_entry_binary_plist(key: &str, value: &str) -> Vec<u8> {
    let mut objects = Vec::new();
    objects.push(vec![0xD1, 0x01, 0x02]);

    let mut key_object = Vec::new();
    if key.len() < 0x0f {
        key_object.push(0x50 | key.len() as u8);
    } else {
        key_object.extend([0x5f, 0x10, key.len() as u8]);
    }
    key_object.extend(key.as_bytes());
    objects.push(key_object);

    let mut value_object = Vec::new();
    if value.len() < 0x0f {
        value_object.push(0x50 | value.len() as u8);
    } else {
        value_object.extend([0x5f, 0x10, value.len() as u8]);
    }
    value_object.extend(value.as_bytes());
    objects.push(value_object);

    let mut bytes = b"bplist00".to_vec();
    let mut offsets = Vec::new();
    for object in objects {
        offsets.push(bytes.len() as u8);
        bytes.extend(object);
    }
    let offset_table_start = bytes.len();
    bytes.extend(offsets);

    let mut trailer = [0u8; 32];
    trailer[6] = 1;
    trailer[7] = 1;
    trailer[8..16].copy_from_slice(&3u64.to_be_bytes());
    trailer[16..24].copy_from_slice(&0u64.to_be_bytes());
    trailer[24..32].copy_from_slice(&(offset_table_start as u64).to_be_bytes());
    bytes.extend(trailer);
    bytes
}

fn unix(device: u64, inode: u64) -> FileIdentity {
    FileIdentity::Unix { device, inode }
}

fn synthetic_entry(path: &str, identity: FileIdentity) -> ScanEntry {
    ScanEntry {
        path: path.as_bytes().to_vec(),
        kind: ResourceKind::Directory,
        identity,
        logical_bytes: None,
        depth: 0,
        dataless: false,
    }
}

#[test]
fn running_observation_matches_only_resolved_present_executables() {
    let place = b"/apps/Fixture.app/Contents/MacOS/Run".to_vec();
    let running = vec![RunningPath {
        path: place.clone(),
        pids: vec![4242, 4343],
    }];
    let present = ExecutableMetadata {
        state: StringState::Present,
        declared_value: Some("Run".into()),
        path_status: PathStatus::PresentFile,
    };
    assert_eq!(
        running_observation(&present, &Some(place.clone()), &running),
        RunningObservation::Running(vec![4242, 4343])
    );
    assert_eq!(
        running_observation(&present, &Some(place.clone()), &vec![]),
        RunningObservation::NotRunning
    );
    for (state, declared, status) in [
        (StringState::Missing, None, PathStatus::NotChecked),
        (
            StringState::Present,
            Some("Run".to_owned()),
            PathStatus::Missing,
        ),
        (
            StringState::Present,
            Some("Run".to_owned()),
            PathStatus::NotFollowedSymlink,
        ),
        (StringState::NotString, None, PathStatus::NotChecked),
    ] {
        let metadata = ExecutableMetadata {
            state,
            declared_value: declared,
            path_status: status,
        };
        assert!(
            matches!(
                running_observation(&metadata, &Some(place.clone()), &running),
                RunningObservation::NotAttributable(_)
            ),
            "{state:?}/{status:?} must not be attributable"
        );
    }
    let ghost = ExecutableMetadata {
        state: StringState::Present,
        declared_value: Some("Ghost".into()),
        path_status: PathStatus::PresentFile,
    };
    assert!(matches!(
        running_observation(&ghost, &None, &running),
        RunningObservation::NotAttributable(_)
    ));
}

#[test]
fn failed_running_enumeration_marks_every_record_unknown() {
    let mut apps = vec![unknown_record(b"/nonexistent/Fixture.app", unix(1, 1))];
    let running = running_process_paths(Host::Other, Ok(vec![]));
    attribute_running_state(&mut apps, &running, &vec![None]);
    assert_eq!(apps[0].running, RunningObservation::Unknown);
}

#[test]
fn running_processes_are_grouped_by_executable() {
    let listing = vec![
        (7, b"/bin/a".to_vec()),
        (8, b"/bin/b".to_vec()),
        (9, b"/bin//a".to_vec()),
    ];
    let running = running_process_paths(Host::MacOs, Ok(listing)).unwrap();
    assert_eq!(running.len(), 2);
    assert_eq!(running[0].pids, [7, 9]);
    assert_eq!(running[1].pids, [8]);
    let mut record = unknown_record(b"/apps/Fixture.app", unix(1, 1));
    assert_eq!(executable_candidate(&record), None);
    record.executable = ExecutableMetadata {
        state: StringState::Present,
        declared_value: Some("Run".into()),
        path_status: PathStatus::PresentFile,
    };
    assert_eq!(
        executable_candidate(&record),
        Some(b"/apps/Fixture.app/Contents/MacOS/Run".to_vec())
    );
}

#[test]
fn executable_path_validation_rejects_nested_components() {
    assert!(valid_single_component_executable("run"));
    assert!(!valid_single_component_executable("../run"));
    assert!(!valid_single_component_executable("foo/bar"));
    assert!(!valid_single_component_executable(""));
}

#[test]
fn single_bundle_identifier_read_is_honest() {
    let xml = br#"<?xml version="1.0" encoding="UTF-8"?>
<plist version="1.0"><dict>
<key>CFBundleIdentifier</key><string>com.example.demo</string>
</dict></plist>"#;
    let look = PlistLook::File {
        length: xml.len() as u64,
        bytes: Some(xml.to_vec()),
    };
    match read_bundle_identifier(&look) {
        BundleIdentifierRead::Parsed(field) => {
            assert_eq!(field.state, StringState::Present);
            assert_eq!(field.value.as_deref(), Some("com.example.demo"));
        }
        BundleIdentifierRead::Unreadable(reason) => panic!("expected a parsed field: {reason}"),
    }
    // A missing plist is an explicit unreadable state, never a guess.
    assert!(matches!(
        read_bundle_identifier(&PlistLook::NotFound),
        BundleIdentifierRead::Unreadable(_)
    ));
    assert!(matches!(
        read_bundle_identifier(&PlistLook::NotAFile),
        BundleIdentifierRead::Unreadable(_)
    ));
}

#[test]
fn xml_parser_extracts_selected_fields() {
    let xml = br#"<?xml version="1.0" encoding="UTF-8"?>
<plist version="1.0"><dict>
<key>CFBundleDisplayName</key><string>Example</string>
<key>CFBundleIdentifier</key><string>com.example.demo</string>
<key>CFBundlePackageType</key><string>APPL</string>
<key>CFBundleExecutable</key><string>Demo</string>
</dict></plist>"#;
    let parsed = parse_xml_for_test(xml);
    assert_eq!(parsed.display_name.value.as_deref(), Some("Example"));
    assert_eq!(parsed.bundle_id.value.as_deref(), Some("com.example.demo"));
    assert_eq!(parsed.package_type.value.as_deref(), Some("APPL"));
    assert_eq!(parsed.executable.value.as_deref(), Some("Demo"));
}

#[test]
fn cr_product_dir_name_is_opt_in_for_related_mode_xml() {
    let xml = br#"<?xml version="1.0" encoding="UTF-8"?>
<plist version="1.0"><dict>
<key>CrProductDirName</key><string>Google/Chrome</string>
</dict></plist>"#;
    let baseline = parse_xml_for_mode(xml, AppInventoryMetadataReadMode::Baseline);
    assert_eq!(baseline.cr_product_dir_name.state, StringState::Missing);
    let related = parse_xml_for_mode(xml, AppInventoryMetadataReadMode::AppRelated);
    assert_eq!(
        related.cr_product_dir_name.value.as_deref(),
        Some("Google/Chrome")
    );
}

#[test]
fn cr_product_dir_name_is_opt_in_for_related_mode_binary() {
    let binary = single_entry_binary_plist("CrProductDirName", "Google/Chrome");
    let baseline = parse_binary_for_mode(&binary, AppInventoryMetadataReadMode::Baseline);
    assert_eq!(baseline.cr_product_dir_name.state, StringState::Missing);
    let related = parse_binary_for_mode(&binary, AppInventoryMetadataReadMode::AppRelated);
    assert_eq!(
        related.cr_product_dir_name.value.as_deref(),
        Some("Google/Chrome")
    );
}

#[test]
fn cr_product_dir_name_respects_selected_string_bounds() {
    let xml = br#"<?xml version="1.0" encoding="UTF-8"?>
<plist version="1.0"><dict>
<key>CrProductDirName</key><integer>1</integer>
</dict></plist>"#;
    let related = parse_xml_for_mode(xml, AppInventoryMetadataReadMode::AppRelated);
    assert_eq!(related.cr_product_dir_name.state, StringState::NotString);
    let baseline = parse_xml_for_mode(xml, AppInventoryMetadataReadMode::Baseline);
    assert_eq!(baseline.cr_product_dir_name.state, StringState::Missing);
}

#[test]
fn xml_parser_marks_selected_non_string_types() {
    let xml = br#"<?xml version="1.0" encoding="UTF-8"?>
<plist version="1.0"><dict>
<key>CFBundleDisplayName</key><integer>1</integer>
<key>CFBundleName</key><true/>
<key>CFBundleIdentifier</key><data>QQ==</data>
<key>CFBundleShortVersionString</key><array><string>1</string></array>
<key>CFBundleVersion</key><dict><key>a</key><string>b</string></dict>
</dict></plist>"#;
    let parsed = parse_xml_for_test(xml);
    assert_eq!(parsed.display_name.state, StringState::NotString);
    assert_eq!(parsed.bundle_name.state, StringState::NotString);
    assert_eq!(parsed.bundle_id.state, StringState::NotString);
    assert_eq!(parsed.short_version.state, StringState::NotString);
    assert_eq!(parsed.build_version.state, StringState::NotString);
}

#[test]
fn xml_parser_handles_cdata_for_selected_key_and_value() {
    let xml = br#"<?xml version="1.0" encoding="UTF-8"?>
<plist version="1.0"><dict>
<key><![CDATA[CFBundlePackageType]]></key><string><![CDATA[APPL]]></string>
</dict></plist>"#;
    let parsed = parse_xml_for_test(xml);
    assert_eq!(parsed.package_type.value.as_deref(), Some("APPL"));
    assert_eq!(parsed.package_type.state, StringState::Present);
}

#[test]
fn xml_parser_decodes_general_refs_and_preserves_spaces() {
    let xml = br#"<?xml version="1.0" encoding="UTF-8"?>
<plist version="1.0"><dict>
<key>CFBundleDisplayName</key><string>A &amp; B</string>
<key>CFBundleI<![CDATA[dent]]>ifier</key><string>com.example&#x3A9;&#169;</string>
<key>CFBundleName</key><string><![CDATA[Left ]]>&lt;&gt;&quot;&apos;&#937;<![CDATA[ Right]]></string>
</dict></plist>"#;
    let parsed = parse_xml_for_test(xml);
    assert_eq!(parsed.display_name.value.as_deref(), Some("A & B"));
    assert_eq!(
        parsed.bundle_id.value.as_deref(),
        Some("com.example\u{3a9}\u{a9}")
    );
    assert_eq!(
        parsed.bundle_name.value.as_deref(),
        Some("Left <>\"'\u{3a9} Right")
    );
}

#[test]
fn xml_parser_rejects_invalid_or_unsupported_general_refs() {
    let custom = br#"<?xml version="1.0" encoding="UTF-8"?>
<plist version="1.0"><dict><key>CFBundleName</key><string>&custom;</string></dict></plist>"#;
    let nul = br#"<?xml version="1.0" encoding="UTF-8"?>
<plist version="1.0"><dict><key>CFBundleName</key><string>&#0;</string></dict></plist>"#;
    let bad_num = br#"<?xml version="1.0" encoding="UTF-8"?>
<plist version="1.0"><dict><key>CFBundleName</key><string>&#x110000;</string></dict></plist>"#;
    for xml in [&custom[..], &nul[..], &bad_num[..]] {
        let error = parse_xml_error_for_test(xml);
        assert_eq!(error.code, AppIssueCode::MalformedPlist);
    }
}

#[test]
fn xml_general_ref_budget_counts_decoded_chars() {
    let xml = br#"<?xml version="1.0" encoding="UTF-8"?>
<plist version="1.0"><dict>
<key>CFBundleDisplayName</key><string>A &amp; B</string>
</dict></plist>"#;
    let cancellation = Cancellation::new();
    let limits = AppInventoryLimits {
        max_string_bytes: 4,
        ..AppInventoryLimits::default()
    };
    let context = context(&cancellation, limits, AppInventoryMetadataReadMode::Baseline);
    let error = match parse_xml_plist(xml, &context, &mut ProbeBudget::new()) {
        Ok(_) => panic!("expected parse-limit error"),
        Err(error) => error,
    };
    assert_eq!(error.code, AppIssueCode::PlistParseLimit);
}

#[test]
fn exclusion_matcher_handles_prefix_identity_and_empty_cases() {
    let id_a = unix(1, 10);
    let id_b = unix(1, 20);
    let id_c = unix(1, 30);
    let entries = vec![
        synthetic_entry("/roots/Alias.app", id_a),
        synthetic_entry("/roots/Copy.app", id_a),
        synthetic_entry("/roots/Exact.app", id_b),
        synthetic_entry("/roots/Other.app", id_c),
    ];
    let cancellation = Cancellation::new();
    let context = context(
        &cancellation,
        AppInventoryLimits::default(),
        AppInventoryMetadataReadMode::Baseline,
    );
    let excludes = vec![
        b"/roots/Alias.app".to_vec(),
        b"/roots/Exact.app/Contents".to_vec(),
    ];
    let matcher = ExclusionMatcher::build(&entries, &excludes, &context).expect("build matcher");
    assert!(matcher.contains(&entries[0]), "direct prefix excluded");
    assert!(
        matcher.contains(&entries[1]),
        "identity alias excluded from single pass identity set"
    );
    assert!(matcher.contains(&entries[2]), "prefix descendant excluded");
    assert!(
        !matcher.contains(&entries[3]),
        "nonexcluded entry preserved"
    );
    let everything = ExclusionMatcher::build(&entries, &vec![Vec::new()], &context)
        .expect("matcher of the empty path");
    assert!(entries.iter().all(|entry| everything.contains(entry)));
    let empty = ExclusionMatcher::build(&entries, &vec![], &context).expect("empty matcher");
    assert!(!empty.contains(&entries[0]));
    assert!(!empty.contains(&entries[3]));
}

#[test]
fn collect_excluded_identities_scans_entries_once() {
    let entries = (0..256usize)
        .map(|index| {
            synthetic_entry(
                &format!("/roots/Item{index}.app"),
                unix(2, 100 + index as u64),
            )
        })
        .collect::<Vec<_>>();
    let excludes = vec![
        b"/roots/Item1.app".to_vec(),
        b"/roots/Item2.app".to_vec(),
    ];
    let cancellation = Cancellation::new();
    let context = context(
        &cancellation,
        AppInventoryLimits::default(),
        AppInventoryMetadataReadMode::Baseline,
    );
    let (identities, seen) =
        collect_excluded_identities(&entries, &excludes, &context).expect("collect identities");
    assert_eq!(seen, entries.len());
    assert_eq!(identities.len(), 2);
}

#[test]
fn xml_parser_detects_duplicate_selected_keys_even_with_type_mismatch() {
    let xml = br#"<?xml version="1.0" encoding="UTF-8"?>
<plist version="1.0"><dict>
<key>CFBundleIdentifier</key><string>one</string>
<key>CFBundleIdentifier</key><integer>2</integer>
</dict></plist>"#;
    assert_eq!(
        parse_xml_error_for_test(xml).code,
        AppIssueCode::MalformedPlist
    );
}

#[test]
fn binary_parser_rejects_invalid_offsets() {
    let mut bytes = b"bplist00".to_vec();
    bytes.resize(64, 0);
    let trailer_start = bytes.len() - 32;
    bytes[trailer_start + 6] = 1;
    bytes[trailer_start + 7] = 1;
    bytes[trailer_start + 8..trailer_start + 16].copy_from_slice(&1u64.to_be_bytes());
    bytes[trailer_start + 16..trailer_start + 24].copy_from_slice(&0u64.to_be_bytes());
    bytes[trailer_start + 24..trailer_start + 32].copy_from_slice(&60u64.to_be_bytes());
    let cancellation = Cancellation::new();
    let context = context(
        &cancellation,
        AppInventoryLimits::default(),
        AppInventoryMetadataReadMode::Baseline,
    );
    assert!(parse_binary_plist(&bytes, &context, &mut ProbeBudget::new()).is_err());
}

#[test]
fn binary_numbers_are_big_endian() {
    assert_eq!(read_be_uint(&[0xff, 0x01, 0x02], 1, 2).unwrap(), 0x0102);
    assert!(read_be_uint(&[0x01], 0, 2).is_err());
}

#[test]
fn malformed_xml_is_an_error() {
    for xml in [
        &b"<plist><dict></plist>"[..],
        &b"<plist><dict><key>a</key></dict></plist>"[..],
        &b""[..],
    ] {
        assert_eq!(
            parse_xml_error_for_test(xml).code,
            AppIssueCode::MalformedPlist
        );
    }
}

#[test]
fn property_lists_are_told_apart_by_their_first_bytes() {
    let cancellation = Cancellation::new();
    let context = context(
        &cancellation,
        AppInventoryLimits::default(),
        AppInventoryMetadataReadMode::AppRelated,
    );
    let binary = single_entry_binary_plist("CFBundleIdentifier", "com.example.demo");
    let parsed = parse_info_plist(&binary, &context, &mut ProbeBudget::new()).unwrap();
    assert_eq!(parsed.bundle_id.value.as_deref(), Some("com.example.demo"));
    let xml = b"<plist><dict><key>CFBundleName</key><string>X</string></dict></plist>";
    let parsed = parse_info_plist(xml, &context, &mut ProbeBudget::new()).unwrap();
    assert_eq!(parsed.bundle_name.value.as_deref(), Some("X"));
}

#[test]
fn cancelled_probe_stops_parsing() {
    let cancellation = Cancellation::new();
    cancellation.cancel();
    let context = context(
        &cancellation,
        AppInventoryLimits::default(),
        AppInventoryMetadataReadMode::Baseline,
    );
    let error = parse_xml_plist(b"<plist></plist>", &context, &mut ProbeBudget::new()).unwrap_err();
    assert_eq!(error.code, AppIssueCode::Cancelled);
    assert_eq!(context.check().unwrap_err().code, AppIssueCode::Cancelled);
}

#[test]
fn spent_time_is_a_limit() {
    let reading = Reading {
        cancelled: false,
        elapsed_nanos: 10,
        budget_nanos: 9,
    };
    assert_eq!(reading.check().unwrap_err().code, AppIssueCode::DurationLimit);
    let cancellation = Cancellation::new();
    let context = ProbeContext::start(
        &cancellation,
        0,
        AppInventoryLimits::default(),
        AppInventoryMetadataReadMode::Baseline,
    );
    while context.check().is_ok() {}
    assert_eq!(
        context.check().unwrap_err().code,
        AppIssueCode::DurationLimit
    );
}

#[test]
fn charges_stop_at_their_limits() {
    let limits = AppInventoryLimits {
        max_total_plist_io_bytes: 10,
        max_total_retained_metadata_string_bytes: 5,
        max_plist_refs_visited: 1,
        ..AppInventoryLimits::default()
    };
    let mut budget = ProbeBudget::new();
    budget.charge_io(10, limits).unwrap();
    assert_eq!(
        budget.charge_io(1, limits).unwrap_err().code,
        AppIssueCode::PlistIoLimit
    );
    assert_eq!(budget.io_bytes, 10);
    assert!(budget.preflight_io(1, limits).is_err());
    budget.charge_retained(5, limits).unwrap();
    assert!(budget.charge_retained(1, limits).is_err());
    budget.visit_ref(limits).unwrap();
    assert_eq!(
        budget.visit_ref(limits).unwrap_err().code,
        AppIssueCode::PlistParseLimit
    );
}

fn raw(mode: u32, inode: u64) -> RawStat {
    RawStat {
        mode,
        device: 1,
        inode,
        flags: 0,
        size: 64,
        mtime: Moment {
            seconds: 1,
            nanoseconds: 2,
        },
        ctime: Moment {
            seconds: 3,
            nanoseconds: 4,
        },
    }
}

const DIRECTORY: u32 = 0o040755;
const FILE: u32 = 0o100644;
const LINK: u32 = 0o120777;

fn missing() -> IoFailure {
    IoFailure {
        kind: IoKind::NotFound,
        text: "No such file or directory".into(),
        os_code: Some(2),
    }
}

fn location() -> BundleLocation {
    BundleLocation {
        root: b"/apps".to_vec(),
        root_identity: unix(1, 1),
        relative: b"Demo.app".to_vec(),
        ancestors: vec![],
        identity: unix(1, 2),
    }
}

fn open_look() -> OpenLook {
    OpenLook {
        root: HeldLook::Held(raw(DIRECTORY, 1)),
        ancestors: vec![],
        bundle: HeldLook::Held(raw(DIRECTORY, 2)),
        contents: HeldLook::Held(raw(DIRECTORY, 3)),
        info: HeldLook::Held(raw(FILE, 4)),
    }
}

fn open_bundle() -> InspectedBundle {
    InspectedBundle::open(&location(), &Ok(()), &open_look(), &Ok(())).unwrap()
}

fn recheck(executable: LeafLooks) -> RecheckLook {
    RecheckLook {
        root: HeldLook::Held(raw(DIRECTORY, 1)),
        ancestors: vec![],
        bundle: HeldLook::Held(raw(DIRECTORY, 2)),
        contents: HeldLook::Held(raw(DIRECTORY, 3)),
        held_info: Ok(raw(FILE, 4)),
        info: HeldLook::Held(raw(FILE, 4)),
        held_macos: Ok(raw(DIRECTORY, 5)),
        macos: HeldLook::Held(raw(DIRECTORY, 5)),
        executable,
        held_bundle: Ok(raw(DIRECTORY, 2)),
        held_contents: Ok(raw(DIRECTORY, 3)),
    }
}

fn look_for(leaf: Result<RawStat, IoFailure>) -> ExecutableLook {
    ExecutableLook {
        macos: Ok(raw(DIRECTORY, 5)),
        held_macos: HeldLook::Held(raw(DIRECTORY, 5)),
        leaf,
    }
}

#[test]
fn unchanged_present_and_missing_leaves_validate() {
    let mut bundle = open_bundle();
    assert_eq!(
        bundle.stat_executable(&look_for(Ok(raw(FILE, 6)))).unwrap(),
        PathStatus::PresentFile
    );
    bundle
        .check_unchanged(&recheck(LeafLooks {
            held: Ok(raw(FILE, 6)),
            remapped: Ok(raw(FILE, 6)),
        }))
        .unwrap();
    let mut bundle = open_bundle();
    assert_eq!(
        bundle.stat_executable(&look_for(Err(missing()))).unwrap(),
        PathStatus::Missing
    );
    bundle
        .check_unchanged(&recheck(LeafLooks {
            held: Err(missing()),
            remapped: Err(missing()),
        }))
        .unwrap();
}

#[test]
fn replaced_leaves_are_changes() {
    let mut bundle = open_bundle();
    bundle.stat_executable(&look_for(Ok(raw(FILE, 6)))).unwrap();
    for leaf in [raw(FILE, 7), raw(LINK, 6), raw(DIRECTORY, 6)] {
        let error = bundle
            .check_unchanged(&recheck(LeafLooks {
                held: Ok(leaf),
                remapped: Ok(leaf),
            }))
            .unwrap_err();
        assert_eq!(error.code, AppIssueCode::Changed);
    }
    let error = bundle
        .check_unchanged(&recheck(LeafLooks {
            held: Err(missing()),
            remapped: Err(missing()),
        }))
        .unwrap_err();
    assert_eq!(error.code, AppIssueCode::NotFound);
    // Taking a file out of a directory touches the directory.
    let mut touched = raw(DIRECTORY, 5);
    touched.ctime.seconds = 9;
    let mut removed = recheck(LeafLooks {
        held: Err(missing()),
        remapped: Err(missing()),
    });
    removed.held_macos = Ok(touched);
    removed.macos = HeldLook::Held(touched);
    assert_eq!(
        bundle.check_unchanged(&removed).unwrap_err().code,
        AppIssueCode::Changed
    );
    let mut replaced = recheck(LeafLooks {
        held: Ok(raw(FILE, 6)),
        remapped: Ok(raw(FILE, 6)),
    });
    replaced.macos = HeldLook::Held(raw(DIRECTORY, 50));
    assert_eq!(
        bundle.check_unchanged(&replaced).unwrap_err().code,
        AppIssueCode::Changed
    );
}

#[test]
fn opening_fails_on_replaced_or_dataless_directories() {
    let mut look = open_look();
    look.bundle = HeldLook::Held(raw(DIRECTORY, 9));
    let error = InspectedBundle::open(&location(), &Ok(()), &look, &Ok(())).unwrap_err();
    assert_eq!(error.code, AppIssueCode::Changed);
    let mut look = open_look();
    look.info = HeldLook::NotOpened(missing());
    let error = InspectedBundle::open(&location(), &Ok(()), &look, &Ok(())).unwrap_err();
    assert_eq!(error.code, AppIssueCode::NotFound);
    assert_eq!(error.os_code, Some(2));
}

#[test]
fn opening_needs_names_for_the_bundle_and_its_ancestors() {
    let nameless = BundleLocation {
        relative: b"..".to_vec(),
        ..location()
    };
    let error = InspectedBundle::open(&nameless, &Ok(()), &open_look(), &Ok(())).unwrap_err();
    assert_eq!(error.code, AppIssueCode::InvalidInput);
    assert_eq!(error.message, "missing app bundle filename");
    let direct = BundleLocation {
        relative: vec![],
        ..location()
    };
    InspectedBundle::open(&direct, &Ok(()), &open_look(), &Ok(())).unwrap();
    let below = |name: &[u8]| BundleLocation {
        ancestors: vec![(name.to_vec(), unix(1, 7))],
        ..location()
    };
    let look = || OpenLook {
        ancestors: vec![HeldLook::Held(raw(DIRECTORY, 7))],
        ..open_look()
    };
    let bundle = InspectedBundle::open(&below(b"Tools"), &Ok(()), &look(), &Ok(())).unwrap();
    assert_eq!(bundle.dir_chain[0].name, b"Tools");
    for name in [&b"a/b"[..], b"./a", b"/a", b""] {
        let error = InspectedBundle::open(&below(name), &Ok(()), &look(), &Ok(())).unwrap_err();
        assert_eq!(error.message, "invalid ancestor component");
    }
}

#[test]
fn property_list_is_read_within_its_budget() {
    let cancellation = Cancellation::new();
    let limits = AppInventoryLimits {
        max_info_plist_bytes: 8,
        ..AppInventoryLimits::default()
    };
    let context = context(&cancellation, limits, AppInventoryMetadataReadMode::Baseline);
    let mut budget = ProbeBudget::new();
    assert_eq!(
        PlistRead::start(9, &context, &budget).unwrap_err().code,
        AppIssueCode::PlistSizeLimit
    );
    let mut read = PlistRead::start(8, &context, &budget).unwrap();
    assert_eq!(read.wanted(), 8);
    read.take(&Ok(b"12345678".to_vec()), limits, &mut budget)
        .unwrap();
    assert_eq!(read.wanted(), 0);
    assert_eq!(read.bytes, b"12345678");
    assert_eq!(budget.io_bytes, 8);
}

fn report(entries: Vec<ScanEntry>) -> ScanReport {
    ScanReport {
        task_id: "task-7".into(),
        roots: vec![b"/apps".to_vec()],
        status: ScanStatus::Complete,
        complete: true,
        entries,
        issues: vec![],
        issues_omitted: 0,
    }
}

fn options() -> AppInventoryOptions {
    AppInventoryOptions {
        filter: String::new(),
        excludes: vec![],
        limits: AppInventoryLimits::default(),
        metadata_read_mode: AppInventoryMetadataReadMode::Baseline,
        running_attribution: false,
    }
}

#[test]
fn inventory_timeout_budget_stops_metadata_without_unbudgeted_reads() {
    let report = report(vec![
        synthetic_entry("/apps", unix(1, 1)),
        synthetic_entry("/apps/Timeout.app", unix(1, 2)),
    ]);
    let cancellation = Cancellation::new();
    let context = context(
        &cancellation,
        AppInventoryLimits::default(),
        AppInventoryMetadataReadMode::Baseline,
    );
    let mut run = inventory_apps(Host::MacOs, &report, &options(), &context);
    assert!(matches!(run.due(&report.entries), Due::Inspect(1)));
    run.locate(&report.entries, 1).unwrap();
    let late = Reading {
        cancelled: false,
        elapsed_nanos: 2_000_000,
        budget_nanos: 1_000_000,
    };
    run.settle(&report.entries, Err(late.check().unwrap_err()));
    assert!(matches!(run.due(&report.entries), Due::Nothing));
    let result = run.finish(ProbeBudget::new(), 2);
    assert!(result
        .issues
        .iter()
        .any(|issue| issue.code == AppIssueCode::DurationLimit));
    assert_eq!(result.status, AppInventoryStatus::Partial);
    assert_eq!(result.counts.inspected_candidates, 1);
    assert_eq!(result.counts.unknown, 1);
    assert_eq!(result.metrics.plist_read_bytes, 0);
    assert_eq!(result.metrics.probe_elapsed_ms, 2);
}

#[test]
fn inventory_counts_applications_and_duplicates() {
    let report = report(vec![
        synthetic_entry("/apps", unix(1, 1)),
        synthetic_entry("/apps/Demo.app", unix(1, 2)),
        synthetic_entry("/apps/Alias.app", unix(1, 2)),
        synthetic_entry("/apps/notes", unix(1, 3)),
    ]);
    let cancellation = Cancellation::new();
    let context = context(
        &cancellation,
        AppInventoryLimits::default(),
        AppInventoryMetadataReadMode::Baseline,
    );
    let mut run = inventory_apps(Host::MacOs, &report, &options(), &context);
    let xml = b"<plist><dict><key>CFBundlePackageType</key><string>APPL</string>\
<key>CFBundleName</key><string>Demo</string></dict></plist>";
    assert!(matches!(run.due(&report.entries), Due::Inspect(_)));
    let parsed = parse_info_plist(xml, &context, &mut ProbeBudget::new()).unwrap();
    let record = inspect_bundle(b"/apps/Demo.app", unix(1, 2), parsed, None, Ok(()));
    run.settle(&report.entries, record);
    assert!(matches!(run.due(&report.entries), Due::Duplicate));
    run.settle_duplicate(&report.entries);
    assert!(matches!(run.due(&report.entries), Due::Nothing));
    let inventory = run.finish(ProbeBudget::new(), 1);
    assert_eq!(inventory.status, AppInventoryStatus::Complete);
    assert!(inventory.complete);
    assert_eq!(inventory.counts.named_candidates, 2);
    assert_eq!(inventory.counts.recognized_apps, 1);
    assert_eq!(inventory.counts.duplicate_identities, 1);
    assert_eq!(inventory.apps.len(), 1);
    assert_eq!(inventory.apps[0].display_name, "Demo");
}

#[test]
fn inventory_is_explicitly_unsupported_elsewhere() {
    let report = report(vec![]);
    let cancellation = Cancellation::new();
    let context = context(
        &cancellation,
        AppInventoryLimits::default(),
        AppInventoryMetadataReadMode::Baseline,
    );
    let run = inventory_apps(Host::Other, &report, &options(), &context);
    assert!(run.ended_early);
    let inventory = run.finish(ProbeBudget::new(), 8);
    assert_eq!(inventory.metrics.elapsed_ms, 8);
    assert_eq!(inventory.metrics.probe_elapsed_ms, 0);
    assert!(!inventory.complete);
    assert_eq!(inventory.issues[0].code, AppIssueCode::UnsupportedPlatform);
}

#[test]
fn limits_above_the_defaults_are_refused() {
    let limits = AppInventoryLimits {
        max_issues: 1025,
        ..AppInventoryLimits::default()
    };
    assert!(limits.validate().is_err());
    assert!(AppInventoryLimits::default().validate().is_ok());
}

#[test]
fn only_a_request_or_a_reachable_budget_stops_a_probe() {
    let never = Cancellation::never();
    never.cancel();
    assert!(!never.is_cancelled());
    let unhurried = ProbeContext::start(
        &never,
        u128::MAX,
        AppInventoryLimits::default(),
        AppInventoryMetadataReadMode::Baseline,
    );
    assert!(unhurried.check().is_ok());
    let bytes = single_entry_binary_plist("CFBundleIdentifier", "org.example.app");
    let parsed = parse_binary_plist(&bytes, &unhurried, &mut ProbeBudget::new()).unwrap();
    assert_eq!(parsed.bundle_id.value.as_deref(), Some("org.example.app"));

    let raised = Cancellation::new();
    raised.cancel();
    let stopped = context(
        &raised,
        AppInventoryLimits::default(),
        AppInventoryMetadataReadMode::Baseline,
    );
    assert_eq!(
        parse_binary_plist(&bytes, &stopped, &mut ProbeBudget::new()).unwrap_err().code,
        AppIssueCode::Cancelled
    );
}

#[test]
fn malformed_binary_lists_are_refused_whatever_the_clock_says() {
    let raised = Cancellation::new();
    raised.cancel();
    let stopped = context(
        &raised,
        AppInventoryLimits::default(),
        AppInventoryMetadataReadMode::Baseline,
    );
    let parse = |bytes: &[u8]| {
        parse_binary_plist(bytes, &stopped, &mut ProbeBudget::new())
            .unwrap_err()
            .message
    };
    assert_eq!(parse(b"bplist00"), "binary plist too short");
    assert_eq!(parse(&[0u8; 40]), "unsupported binary plist magic");
    let mut bytes = b"bplist00".to_vec();
    bytes.resize(40, 0);
    assert_eq!(parse(&bytes), "invalid binary plist trailer");
    assert_eq!(
        parse_info_plist(b"neither", &stopped, &mut ProbeBudget::new())
            .unwrap_err()
            .message,
        "unsupported plist format"
    );
}
