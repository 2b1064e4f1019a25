//! Scanner, archive dispatch, profile and backup tests.

use civmods::archive::{archive_format, locate_mod_content, ArchiveFormat};
use civmods::backup::{backup_mod_to_temp, generate_timestamp_string, parent_dir};
use civmods::folders::get_civ7_mods_folder;
use civmods::fstree::{FsNode, FsEntry};
use civmods::profiles::{copy_mods_to_profile, restore_mods_from_profile, delete_profile,
    create_empty_profile};
use civmods::traversal::{scan_civ_mods, get_unlocked_mod_folders, find_modinfo_file};
use civmods::ModError;

fn bytes(s: &str) -> Vec<u8> {
    s.as_bytes().to_vec()
}

fn file(name: &str, content: &str) -> FsEntry {
    FsEntry { name: bytes(name), node: FsNode::File { bytes: bytes(content) } }
}

fn dir(name: &str, entries: Vec<FsEntry>) -> FsEntry {
    FsEntry { name: bytes(name), node: FsNode::Dir { entries } }
}

fn mod_folder(folder: &str, id: &str) -> FsEntry {
    let manifest = format!("<Mod id=\"{}\"><Properties></Properties></Mod>", id);
    dir(folder, vec![FsEntry {
        name: bytes("MyMod.modinfo"),
        node: FsNode::File { bytes: manifest.into_bytes() },
    }])
}

#[test]
fn archive_dispatch_rejects_an_executable() {
    assert_eq!(archive_format(&bytes("/tmp/some-mod.exe")), Err(ModError::UnsupportedFormat));
}

#[test]
fn archive_dispatch_by_extension() {
    assert_eq!(archive_format(&bytes("a/b/Mod.ZIP")), Ok(ArchiveFormat::Zip));
    assert_eq!(archive_format(&bytes("m.7z")), Ok(ArchiveFormat::SevenZ));
    assert_eq!(archive_format(&bytes("m.rar")), Ok(ArchiveFormat::Rar));
    assert_eq!(archive_format(&bytes("m.tgz")), Ok(ArchiveFormat::TarGz));
    assert_eq!(archive_format(&bytes("m.tar.gz")), Ok(ArchiveFormat::TarGz));
    assert_eq!(archive_format(&bytes("m")), Err(ModError::UnsupportedFormat));
}

#[test]
fn extraction_republishes_the_manifest_directory() {
    // an archive with a wrapper folder: Mod/data/MyMod.modinfo
    let extracted = FsNode::Dir {
        entries: vec![dir(
            "Mod",
            vec![dir("data", vec![file("MyMod.modinfo", "<Mod id=\"m\"></Mod>")])],
        )],
    };
    let content = locate_mod_content(&extracted).unwrap();
    match content {
        FsNode::Dir { entries } => {
            assert_eq!(entries.len(), 1);
            assert_eq!(entries[0].name, bytes("MyMod.modinfo"));
        },
        _ => panic!("expected a directory"),
    }
    let (path, _, _) = find_modinfo_file(&extracted).unwrap();
    assert_eq!(path, vec![bytes("Mod"), bytes("data"), bytes("MyMod.modinfo")]);
}

#[test]
fn missing_manifest_is_reported() {
    let extracted = FsNode::Dir { entries: vec![file("readme.txt", "hi")] };
    match locate_mod_content(&extracted) {
        Err(ModError::ManifestNotFound) => {},
        _ => panic!("expected a missing-manifest error"),
    }
}

#[test]
fn scan_skips_folders_without_manifests() {
    let mods = vec![mod_folder("folderA", "rhq"), dir("junk", vec![file("x.txt", "x")])];
    let infos = scan_civ_mods(&bytes("/mods"), &mods);
    assert_eq!(infos.len(), 1);
    assert_eq!(infos[0].folder_name, bytes("folderA"));
    assert_eq!(infos[0].modinfo_id, Some(bytes("rhq")));
    assert_eq!(infos[0].modinfo_path, bytes("/mods/folderA/MyMod.modinfo"));
}

#[test]
fn unlocked_folders_excludes_locked_ids() {
    let mods = vec![mod_folder("folderA", "rhq"), mod_folder("folderB", "xyz")];
    let unlocked = get_unlocked_mod_folders(&bytes("/mods"), &mods, &vec![bytes("rhq")]);
    assert_eq!(unlocked, vec![bytes("folderB")]);
}

#[test]
fn copy_to_profile_with_cleanup_moves_both_mods() {
    let mods = vec![mod_folder("folderA", "aaa"), mod_folder("folderB", "bbb")];
    let (profile, new_root) = copy_mods_to_profile(&bytes("/mods"), &mods, &vec![], true);
    assert_eq!(profile.len(), 2);
    assert_eq!(profile[0].name, bytes("folderA"));
    assert_eq!(profile[1].name, bytes("folderB"));
    assert_eq!(new_root.len(), 0);
}

#[test]
fn copy_to_profile_without_cleanup_keeps_the_root() {
    let mods = vec![mod_folder("folderA", "aaa")];
    let (profile, new_root) = copy_mods_to_profile(&bytes("/mods"), &mods, &vec![], false);
    assert_eq!(profile.len(), 1);
    assert_eq!(new_root.len(), 1);
}

#[test]
fn restore_from_profile_overwrites_by_name() {
    let mods = vec![mod_folder("folderA", "old")];
    let profile = vec![mod_folder("folderA", "new"), mod_folder("folderC", "ccc")];
    let restored = restore_mods_from_profile(&mods, &profile, false);
    assert_eq!(restored.len(), 2);
    assert_eq!(restored[0].name, bytes("folderA"));
    assert_eq!(restored[1].name, bytes("folderC"));
    let dry = restore_mods_from_profile(&mods, &profile, true);
    assert_eq!(dry.len(), 1);
}

#[test]
fn profile_creation_and_deletion_check_existence() {
    let profiles = vec![bytes("main")];
    assert_eq!(create_empty_profile(&profiles, &bytes("main")), Err(ModError::InvalidPath));
    let created = create_empty_profile(&profiles, &bytes("second")).unwrap();
    assert_eq!(created, vec![bytes("main"), bytes("second")]);
    assert_eq!(delete_profile(&profiles, &bytes("nope")), Err(ModError::InvalidPath));
    assert_eq!(delete_profile(&created, &bytes("main")).unwrap(), vec![bytes("second")]);
}

#[test]
fn timestamps_are_decimal_digits() {
    let t = generate_timestamp_string();
    assert!(!t.is_empty());
    assert!(t.iter().all(|b| (48..=57).contains(b)));
}

#[test]
fn backup_paths_follow_the_layout() {
    let (parent, path) = backup_mod_to_temp(&bytes("/tmp/data"), &bytes("CoolMod"));
    let parent_s = String::from_utf8(parent.clone()).unwrap();
    let path_s = String::from_utf8(path.clone()).unwrap();
    assert!(parent_s.starts_with("/tmp/data/backups/CoolMod_"));
    assert_eq!(path_s, format!("{}/CoolMod", parent_s));
    assert_eq!(parent_dir(&path), Some(parent));
    assert_eq!(parent_dir(&bytes("bare")), None);
}

#[test]
fn mods_folder_depends_on_the_platform() {
    let home = bytes("/home/player");
    assert_eq!(
        get_civ7_mods_folder(&bytes("linux"), &home),
        Some(bytes("/home/player/My Games/Sid Meier's Civilization VII/Mods")),
    );
    assert_eq!(
        get_civ7_mods_folder(&bytes("macos"), &home),
        Some(bytes("/home/player/Library/Application Support/Civilization VII/Mods")),
    );
    assert_eq!(
        get_civ7_mods_folder(&bytes("windows"), &bytes("C:/Users/p")),
        Some(bytes("C:/Users/p/AppData/Local/Firaxis Games/Sid Meier's Civilization VII/Mods")),
    );
    assert_eq!(get_civ7_mods_folder(&bytes("beos"), &home), None);
}
