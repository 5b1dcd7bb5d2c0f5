use sayaka_engine::hex;
use sayaka_engine::path::{
    absolute, contains_piece, join, name_of, overlaps, paths_equal, relative_to, spell, split,
    split_leaf, split_steps, stem_of, within,
};
use sayaka_engine::order::{insert_text, path_before, text_before};
use sayaka_engine::unicode;
use sayaka_engine::xml_text::{decode_xml_entity, decode_xml_text, is_valid_xml_scalar};
use sayaka_engine::version::{
    compare_versions, decimal_text, decode_version, octal_text, version_valid, VersionOrder,
};
use std::path::Path;

#[test]
fn paths_are_compared_by_component() {
    assert!(absolute(b"/a"));
    assert!(!absolute(b"a"));
    assert!(within(b"/a/b/c", b"/a/b"));
    assert!(within(b"/a/b", b"/a/b"));
    assert!(!within(b"/a/bc", b"/a/b"));
    assert!(overlaps(b"/a", b"/a/b"));
    assert!(!overlaps(b"/a/c", b"/a/b"));
    assert_eq!(join(b"/a", b"b"), b"/a/b");
    assert_eq!(join(b"/", b"b"), b"/b");
    assert_eq!(join(b"/a", b"/b"), b"/b");
    assert_eq!(relative_to(b"/a/b/c", b"/a"), b"b/c");
    assert_eq!(
        split(b"/a//b/"),
        [b"a".to_vec(), b"b".to_vec()]
    );
    assert_eq!(name_of(b"/a/b.app").unwrap(), b"b.app");
    assert!(name_of(b"/").is_none());
    assert_eq!(stem_of(b"b.app"), b"b");
    let (parent, leaf) = split_leaf(b"/a/b");
    assert_eq!((parent.as_slice(), leaf.as_slice()), (&b"/a"[..], &b"b"[..]));
    assert!(contains_piece(b"/a/Trash/b", b"Trash"));
}

#[test]
fn a_leading_dot_and_the_empty_path_are_kept_apart() {
    assert_eq!(split(b"./a/./b"), [b".".to_vec(), b"a".to_vec(), b"b".to_vec()]);
    assert_eq!(split(b"a/./b"), [b"a".to_vec(), b"b".to_vec()]);
    assert_eq!(split_steps(b"/./a"), [b"/".to_vec(), b"a".to_vec()]);
    assert!(!within(b"./a/b", b"a"));
    assert!(within(b"./a/b", b"./a"));
    assert!(within(b"/a", b""));
    assert!(within(b"a", b""));
    assert!(!within(b"", b"a"));
    assert!(!paths_equal(b"./a", b"a"));
    assert!(name_of(b".").is_none());
    assert_eq!(name_of(b"./a").unwrap(), b"a");
    assert_eq!(relative_to(b"/a", b""), b"/a");
    assert_eq!(
        spell(&vec![b"/".to_vec(), b"a".to_vec(), b"b".to_vec()], 0, 2),
        b"/a"
    );
    assert!(path_before(b"/b", b"a"));
    assert!(path_before(b"./b", b"../a"));
    assert!(path_before(b"../b", b"!"));
    assert!(path_before(b"", b"/"));
}

#[test]
fn paths_agree_with_those_of_the_standard_library() {
    let samples = [
        "", "/", ".", "..", "./", "/.", "a", "a/", "./a", "../a", "/a", "//a", "a/b", "a//b",
        "a/./b", "a/../b", "./a/b", "/a/b", "/a/./b/", "a/.", "a/..", ".a", "..a", "!", "/..",
        "././a", ".../a",
    ];
    for left in samples {
        let (a, x) = (Path::new(left), left.as_bytes());
        assert_eq!(split_steps(x).len(), a.components().count(), "{left}");
        assert_eq!(
            name_of(x).map(|name| String::from_utf8(name).unwrap()),
            a.file_name().map(|name| name.to_str().unwrap().to_owned()),
            "{left}"
        );
        for right in samples {
            let (b, y) = (Path::new(right), right.as_bytes());
            assert_eq!(within(x, y), a.starts_with(b), "{left} {right}");
            assert_eq!(paths_equal(x, y), a == b, "{left} {right}");
            assert_eq!(path_before(x, y), a < b, "{left} {right}");
            assert_eq!(
                join(x, y),
                a.join(b).to_str().unwrap().as_bytes(),
                "{left} {right}"
            );
            if let Ok(rest) = a.strip_prefix(b) {
                let relative = String::from_utf8(relative_to(x, y)).unwrap();
                assert_eq!(Path::new(&relative), rest, "{left} {right}");
            }
        }
    }
}

#[test]
fn versions_follow_semantic_precedence() {
    assert_eq!(compare_versions("1.2.3", "1.10.0"), VersionOrder::Newer);
    assert_eq!(compare_versions("1.2.3", "1.2.3-rc.1"), VersionOrder::Older);
    assert_eq!(compare_versions("1.2.3", "1.2.3"), VersionOrder::Equal);
    assert_eq!(compare_versions("1.2.3+a", "1.2.3+b"), VersionOrder::Newer);
    assert_eq!(compare_versions("1.2", "1.2.3"), VersionOrder::Unknown);
    assert_eq!(compare_versions("1.2.3", "next"), VersionOrder::Unknown);
    assert!(version_valid("1.2.3-rc.1"));
    assert_eq!(decimal_text(0), "0");
    assert_eq!(decimal_text(18_446_744_073_709_551_615), "18446744073709551615");
    assert_eq!(octal_text(0o100644), "100644");
    assert_eq!(decode_version(0x000d_0102), "13.1.2");
}

#[test]
fn hexadecimal_text_comes_back_as_bytes() {
    assert_eq!(hex::encode_hex(&[0, 15, 255]), "000fff");
    assert_eq!(hex::decode_hex("000fff"), Some(vec![0, 15, 255]));
    assert_eq!(hex::decode_hex("0"), None);
    assert_eq!(hex::decode_hex("0g"), None);
}

#[test]
fn texts_are_compared_without_ascii_case_only() {
    assert!(unicode::same_ignoring_case("Demo.APP", "demo.app"));
    assert!(!unicode::same_ignoring_case("\u{c9}", "\u{e9}"));
    assert!(unicode::occurs_ignoring_case("My Demo App", "demo"));
    assert!(!unicode::occurs_ignoring_case("My Demo App", "demos"));
    assert_eq!(unicode::trim(" \t\u{a0}a b\n"), "a b");
    assert_eq!(unicode::from_utf16(&vec![0x61, 0xd83d, 0xde00]).unwrap(), "a\u{1f600}");
    assert_eq!(unicode::from_utf16(&vec![0xd83d]), None);
    assert_eq!(unicode::length_in_bytes("\u{e9}a"), 3);
}

#[test]
fn entities_of_xml_are_decoded() {
    assert_eq!(decode_xml_text(b"a &amp; b &#x41;&#66;").unwrap(), "a & b AB");
    assert!(decode_xml_text(b"&bogus;").is_err());
    assert!(decode_xml_text(b"&#0;").is_err());
    assert!(decode_xml_text(b"\xff").is_err());
    assert_eq!(decode_xml_entity("lt").unwrap(), '<');
    assert!(is_valid_xml_scalar('\t'));
    assert!(!is_valid_xml_scalar('\u{1}'));
}

#[test]
fn adding_to_a_sorted_list_keeps_it_sorted() {
    let mut list = Vec::new();
    for item in ["b", "a", "c", "b"] {
        insert_text(&mut list, item);
    }
    assert_eq!(list, ["a", "b", "c"]);
    assert!(text_before("Z", "a"));
}
