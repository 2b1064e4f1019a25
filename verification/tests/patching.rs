//! Patch, restore and fingerprint tests.

use civmods::patch::{CivModsProperties, patch_modinfo_xml, restore_patched_modinfo_xml,
    map_props_to_xml};
use civmods::fingerprint::compute_folder_hash;
use civmods::fstree::{FsNode, FsEntry};
use civmods::ModError;

fn bytes(s: &str) -> Vec<u8> {
    s.as_bytes().to_vec()
}

fn props() -> CivModsProperties {
    CivModsProperties {
        target_modinfo_id: None,
        target_modinfo_path: None,
        internal_version_id: bytes("abc"),
        mod_url: bytes("https://test.com"),
        mod_version: Some(bytes("1.0")),
        mod_category: Some(bytes("Test")),
        mod_version_date: Some(bytes("2023-10-01T10:00:00")),
    }
}

#[test]
fn test_patch_and_restore_modinfo_xml() {
    let original = bytes(r#"<Mod><Properties><Name>Original</Name></Properties></Mod>"#);
    let (patched, sidecar) = patch_modinfo_xml(&original, &props());
    // the patched manifest holds the injected metadata
    let text = String::from_utf8(patched.clone()).unwrap();
    assert!(text.contains("CivModsVersion"));
    assert!(text.contains("<CivModsURL>https://test.com</CivModsURL>"));
    // restoring through the sidecar reconstructs the original bit-for-bit
    let restored = restore_patched_modinfo_xml(&patched, Some(&sidecar)).unwrap();
    assert_eq!(restored, Some(original));
}

#[test]
fn patch_matches_the_file_style() {
    let original = bytes("<Mod>\n  <Properties>\n    <Name>X</Name>\n  </Properties>\n</Mod>");
    let (patched, _) = patch_modinfo_xml(&original, &props());
    let expected = "<Mod>\n  <Properties>\n    <Name>X</Name>\n  \
<!-- Added automatically by CivMods: Do not edit -->\n    \
<CivModsCategory>Test</CivModsCategory>\n    \
<CivModsInternalVersionId>abc</CivModsInternalVersionId>\n    \
<CivModsURL>https://test.com</CivModsURL>\n    \
<CivModsVersion>1.0</CivModsVersion>\n    \
<CivModsVersionDate>2023-10-01T10:00:00</CivModsVersionDate>\n    \
</Properties>\n</Mod>";
    assert_eq!(String::from_utf8(patched).unwrap(), expected);
}

#[test]
fn repatching_appends_a_second_block_and_restores_one_step() {
    let original = bytes(r#"<Mod><Properties><Name>Original</Name></Properties></Mod>"#);
    let (patched1, _) = patch_modinfo_xml(&original, &props());
    let (patched2, sidecar2) = patch_modinfo_xml(&patched1, &props());
    let text = String::from_utf8(patched2.clone()).unwrap();
    assert_eq!(text.matches("CivModsURL").count(), 4);
    // the overwritten sidecar maps the repatched text back one step only
    let restored = restore_patched_modinfo_xml(&patched2, Some(&sidecar2)).unwrap();
    assert_eq!(restored, Some(patched1));
}

#[test]
fn restore_without_sidecar_is_a_no_op() {
    let current = bytes("<Mod></Mod>");
    assert_eq!(restore_patched_modinfo_xml(&current, None), Ok(None));
}

#[test]
fn restore_with_mismatched_sidecar_fails() {
    let current = bytes("<Mod></Mod>");
    let mismatched = bytes("--- original\n+++ modified\n@@ -1 +1 @@\n-something else\n+zzz\n");
    assert_eq!(
        restore_patched_modinfo_xml(&current, Some(&mismatched)),
        Err(ModError::PatchApplyFailure),
    );
}

#[test]
fn injected_fields_are_in_tag_order() {
    let fields = map_props_to_xml(&props());
    let names: Vec<Vec<u8>> = fields.iter().map(|p| p.0.clone()).collect();
    assert_eq!(
        names,
        vec![
            bytes("CivModsCategory"),
            bytes("CivModsInternalVersionId"),
            bytes("CivModsURL"),
            bytes("CivModsVersion"),
            bytes("CivModsVersionDate"),
        ],
    );
}

fn file(name: &str, content: &str) -> FsEntry {
    FsEntry { name: name.as_bytes().to_vec(), node: FsNode::File { bytes: content.as_bytes().to_vec() } }
}

#[test]
fn fingerprint_has_a_known_digest() {
    // visit order: a.txt, b.txt, sub/c.bin; the hidden file is skipped
    let tree = FsNode::Dir {
        entries: vec![
            file("b.txt", "BBB"),
            file("a.txt", "AAA"),
            FsEntry {
                name: b"sub".to_vec(),
                node: FsNode::Dir { entries: vec![file("c.bin", "CC")] },
            },
            file(".hidden", "X"),
        ],
    };
    let hash = compute_folder_hash(&tree).unwrap();
    assert_eq!(
        hash,
        b"b2c8717b2bde19f17c6a36de567ce8e38d5102de2dafde29d48d3d2fbb0fa511".to_vec(),
    );
}

#[test]
fn fingerprint_is_traversal_order_independent() {
    let t1 = FsNode::Dir {
        entries: vec![file("b.txt", "BBB"), file("a.txt", "AAA"), file("Thumbs.db", "T")],
    };
    let t2 = FsNode::Dir {
        entries: vec![file("Thumbs.db", "T"), file("a.txt", "AAA"), file("b.txt", "BBB")],
    };
    assert_eq!(compute_folder_hash(&t1).unwrap(), compute_folder_hash(&t2).unwrap());
}

#[test]
fn fingerprint_is_patch_invariant() {
    let manifest = bytes(r#"<Mod><Properties><Name>Original</Name></Properties></Mod>"#);
    let before = FsNode::Dir {
        entries: vec![
            FsEntry { name: b"Test.modinfo".to_vec(), node: FsNode::File { bytes: manifest.clone() } },
            file("a.txt", "AAA"),
        ],
    };
    let h1 = compute_folder_hash(&before).unwrap();
    assert_eq!(
        h1,
        b"e8adc3fe747efc5ad4b6b0731531ee9e1adf038f33182722ff84f72f56fccf8e".to_vec(),
    );
    let (patched, sidecar) = patch_modinfo_xml(&manifest, &props());
    let after = FsNode::Dir {
        entries: vec![
            FsEntry { name: b"Test.modinfo".to_vec(), node: FsNode::File { bytes: patched } },
            file("a.txt", "AAA"),
            FsEntry { name: b".civmods-modinfo.diff".to_vec(), node: FsNode::File { bytes: sidecar } },
        ],
    };
    let h2 = compute_folder_hash(&after).unwrap();
    assert_eq!(h1, h2);
}
