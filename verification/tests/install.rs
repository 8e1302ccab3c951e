use rookup::sp_from_sm::{
    cleaned_entry_action, entry_action, is_confined, is_sp_file, map_to_sp_root, strip_root,
    EntryAction, SM_SP_ROOT,
};
use rookup::{is_compiler, spcomp_exe};
use rookup::failure::FailureKind;
use rookup::smdrop::archive::{
    check_declared_size, ArchiveEntry, ArchiveError, ArchiveKindErr, TransferErr, ZipEntries,
};
use rookup::smdrop::listing::DirectoryItems;
use rookup::smdrop_util::SelectBranchError;
use rookup::toolchain::FindToolchainError;

fn exe() -> String {
    spcomp_exe("linux")
}

fn write(path: &str, executable: bool) -> EntryAction {
    EntryAction::Write { path: path.to_string(), executable }
}

#[test]
fn the_compiler_is_named_after_the_platform() {
    if usize::BITS == 64 {
        assert_eq!(spcomp_exe("linux"), "spcomp64");
        assert_eq!(spcomp_exe("macos"), "spcomp64");
        assert_eq!(spcomp_exe("windows"), "spcomp64.exe");
    } else {
        assert_eq!(spcomp_exe("linux"), "spcomp");
        assert_eq!(spcomp_exe("windows"), "spcomp.exe");
    }
    assert!(is_compiler(&spcomp_exe("linux"), "linux"));
    assert!(is_compiler(&spcomp_exe("windows"), "windows"));
    assert!(!is_compiler(&spcomp_exe("windows"), "linux"));
    assert!(!is_compiler(&spcomp_exe("linux"), "windows"));
    assert!(!is_compiler("spcomp.sh", "linux"));
    assert!(!is_compiler("", "linux"));
}

#[test]
fn entries_below_the_root_keep_what_follows_it() {
    assert_eq!(SM_SP_ROOT, "addons/sourcemod/scripting/");
    assert_eq!(strip_root("addons/sourcemod/scripting/include/foo.inc"), Some("include/foo.inc"));
    assert_eq!(strip_root("addons/sourcemod/scripting/"), None);
    assert_eq!(strip_root("addons/sourcemod/scripting"), None);
    assert_eq!(strip_root("addons/sourcemod/plugins/x.smx"), None);
    assert_eq!(strip_root("/addons/sourcemod/scripting/x"), None);
    assert_eq!(strip_root(""), None);
}

#[test]
fn an_include_file_is_installed_below_include() {
    assert_eq!(
        map_to_sp_root("addons/sourcemod/scripting/include/foo.inc".to_string(), "linux"),
        Some("include/foo.inc".to_string())
    );
    assert_eq!(
        entry_action(b"addons/sourcemod/scripting/include/foo.inc".to_vec(), false, "linux"),
        write("include/foo.inc", false)
    );
    assert_eq!(
        entry_action(b"addons/sourcemod/scripting/include/sub/bar.inc".to_vec(), false, "linux"),
        write("include/sub/bar.inc", false)
    );
}

#[test]
fn names_are_cleaned() {
    assert_eq!(
        map_to_sp_root("addons/sourcemod/scripting/./include//a/../foo.inc".to_string(), "linux"),
        Some("include/foo.inc".to_string())
    );
    assert_eq!(
        entry_action(b"addons/sourcemod/scripting/x/../include/./foo.inc".to_vec(), false, "linux"),
        write("include/foo.inc", false)
    );
}

#[test]
fn a_name_that_leaves_the_destination_is_dropped() {
    for name in [
        "addons/sourcemod/scripting/../../etc/passwd",
        "addons/sourcemod/scripting/..",
        "addons/sourcemod/scripting/../include/foo.inc",
        "addons/sourcemod/scripting/include/../../include/foo.inc",
        "addons/sourcemod/scripting//etc/passwd",
        "addons/sourcemod/scripting//include/foo.inc",
    ] {
        assert_eq!(map_to_sp_root(name.to_string(), "linux"), None, "{}", name);
        assert_eq!(entry_action(name.as_bytes().to_vec(), false, "linux"), EntryAction::Skip, "{}", name);
    }
    let compiler_above = format!("addons/sourcemod/scripting/../../{}", exe());
    assert_eq!(map_to_sp_root(compiler_above.clone(), "linux"), None);
    assert_eq!(entry_action(compiler_above.into_bytes(), false, "linux"), EntryAction::Skip);
}

#[test]
fn the_compiler_is_installed_as_an_executable() {
    let name = format!("addons/sourcemod/scripting/{}", exe());
    assert_eq!(entry_action(name.into_bytes(), false, "linux"), write(&exe(), true));
    let elsewhere = format!("addons/sourcemod/scripting/tools/{}", exe());
    assert_eq!(entry_action(elsewhere.into_bytes(), false, "linux"), EntryAction::Skip);
    let windows = format!("addons/sourcemod/scripting/{}", spcomp_exe("windows"));
    assert_eq!(entry_action(windows.clone().into_bytes(), false, "linux"), EntryAction::Skip);
}

#[test]
fn what_is_no_part_of_a_toolchain_is_skipped() {
    for name in [
        "addons/sourcemod/scripting/compile.sh",
        "addons/sourcemod/scripting/includes/foo.inc",
        "addons/sourcemod/scripting/include.txt",
        "addons/sourcemod/scripting/",
        "addons/sourcemod/plugins/foo.smx",
        "include/foo.inc",
        "",
    ] {
        assert_eq!(entry_action(name.as_bytes().to_vec(), false, "linux"), EntryAction::Skip, "{}", name);
    }
}

#[test]
fn directories_are_skipped() {
    assert_eq!(
        entry_action(b"addons/sourcemod/scripting/include/".to_vec(), true, "linux"),
        EntryAction::Skip
    );
    assert_eq!(
        entry_action(b"addons/sourcemod/scripting/include/sub".to_vec(), true, "linux"),
        EntryAction::Skip
    );
}

#[test]
fn a_name_that_is_no_text_is_skipped() {
    let mut name = b"addons/sourcemod/scripting/include/".to_vec();
    name.push(0xff);
    assert_eq!(entry_action(name, false, "linux"), EntryAction::Skip);
    assert_eq!(entry_action(vec![0xc3], false, "linux"), EntryAction::Skip);
}

#[test]
fn a_name_that_is_other_text_is_kept() {
    let name = "addons/sourcemod/scripting/include/\u{e9}t\u{e9}.inc";
    assert_eq!(
        entry_action(name.as_bytes().to_vec(), false, "linux"),
        write("include/\u{e9}t\u{e9}.inc", false)
    );
}

#[test]
fn toolchain_files_are_told_by_their_path() {
    assert!(is_sp_file("include", "linux"));
    assert!(is_sp_file("include/foo.inc", "linux"));
    assert!(is_sp_file("include/a/b.inc", "linux"));
    assert!(is_sp_file(&exe(), "linux"));
    assert!(!is_sp_file("includes", "linux"));
    assert!(!is_sp_file("includes/foo.inc", "linux"));
    assert!(!is_sp_file("x/include/foo.inc", "linux"));
    assert!(!is_sp_file("include\\foo.inc", "linux"));
    assert!(is_sp_file("include\\foo.inc", "windows"));
    assert!(!is_sp_file("", "linux"));
    assert!(!is_sp_file(&format!("bin/{}", exe()), "linux"));
}

#[test]
fn confined_paths_stay_below_their_directory() {
    assert!(is_confined("include/foo.inc", "linux"));
    assert!(is_confined("a", "linux"));
    assert!(is_confined("..a/b..", "linux"));
    assert!(is_confined("a/...", "linux"));
    assert!(is_confined("a..b", "linux"));
    assert!(is_confined(".", "linux"));
    assert!(!is_confined("", "linux"));
    assert!(!is_confined("..", "linux"));
    assert!(!is_confined("../a", "linux"));
    assert!(!is_confined("a/..", "linux"));
    assert!(!is_confined("a/../b", "linux"));
    assert!(!is_confined("/a", "linux"));
    assert!(is_confined("a\\..\\b", "linux"));
    assert!(!is_confined("a\\..\\b", "windows"));
    assert!(!is_confined("\\a", "windows"));
    assert!(is_confined("c:a", "linux"));
    assert!(!is_confined("c:a", "windows"));
}

#[test]
fn a_declared_size_is_held_against_the_limit() {
    assert_eq!(check_declared_size(None, 0), Ok(()));
    assert_eq!(check_declared_size(Some(0), 0), Ok(()));
    assert_eq!(check_declared_size(Some(75_000_000), 75_000_000), Ok(()));
    assert_eq!(
        check_declared_size(Some(75_000_001), 75_000_000),
        Err(TransferErr::TooLarge { declared: 75_000_001, limit: 75_000_000 })
    );
    assert_eq!(
        check_declared_size(Some(1), 0).unwrap_err().kind(),
        FailureKind::TransferFailure
    );
}

#[test]
fn failures_are_told_apart_by_kind() {
    assert_eq!(FindToolchainError::LatestNotFound("1".to_string()).kind(), FailureKind::NotFound);
    assert_eq!(
        FindToolchainError::NotFound { version: "1".to_string(), alias: "a".to_string() }.kind(),
        FailureKind::NotFound
    );
    assert_eq!(
        FindToolchainError::NoAliasDefault("a".to_string()).kind(),
        FailureKind::ResolutionFailure
    );
    assert_eq!(
        SelectBranchError::NoStable { selector: "stable".to_string() }.kind(),
        FailureKind::ResolutionFailure
    );
    assert_eq!(ArchiveKindErr::Unsupported.kind(), FailureKind::FormatFailure);
    let broken = DirectoryItems::from_str("</b>").collect().unwrap_err();
    assert_eq!(broken.kind(), FailureKind::FormatFailure);
    assert_eq!(FailureKind::NotFound.name(), "not found");
    assert_eq!(FailureKind::ResolutionFailure.name(), "resolution failure");
    assert_eq!(FailureKind::TransferFailure.name(), "transfer failure");
    assert_eq!(FailureKind::FormatFailure.name(), "format failure");
    assert_eq!(FailureKind::FilesystemFailure.name(), "filesystem failure");
    assert_eq!(FailureKind::ConfigFailure.name(), "configuration failure");
}

#[test]
fn empty_and_dotted_pieces_do_not_leave() {
    assert!(is_confined("a//b", "linux"));
    assert!(is_confined("a/./b", "linux"));
    assert!(is_confined("a/", "linux"));
    assert!(is_confined("./a", "linux"));
    assert!(!is_confined("./..", "linux"));
    assert!(!is_confined("a//..", "linux"));
    assert!(is_confined("a/.../b", "linux"));
    assert!(is_confined("a/. ./b", "linux"));
    assert!(!is_confined("a/..\\b", "windows"));
    assert!(is_confined("a/..\\b", "linux"));
}

/// A zip archive with two stored entries, `dir/` and `dir/a.txt` holding `hi`.
fn small_zip() -> Vec<u8> {
    let mut bytes: Vec<u8> = Vec::new();
    let mut central: Vec<u8> = Vec::new();
    let entries: [(&[u8], &[u8], u32); 2] = [(b"dir/", b"", 0), (b"dir/a.txt", b"hi", 0xd8932aac)];
    for (name, data, crc) in entries {
        let offset = bytes.len() as u32;
        bytes.extend_from_slice(&[0x50, 0x4b, 0x03, 0x04, 20, 0, 0, 0, 0, 0, 0, 0, 0x21, 0]);
        bytes.extend_from_slice(&crc.to_le_bytes());
        bytes.extend_from_slice(&(data.len() as u32).to_le_bytes());
        bytes.extend_from_slice(&(data.len() as u32).to_le_bytes());
        bytes.extend_from_slice(&(name.len() as u16).to_le_bytes());
        bytes.extend_from_slice(&[0, 0]);
        bytes.extend_from_slice(name);
        bytes.extend_from_slice(data);
        central.extend_from_slice(&[0x50, 0x4b, 0x01, 0x02, 20, 0, 20, 0, 0, 0, 0, 0, 0, 0, 0x21, 0]);
        central.extend_from_slice(&crc.to_le_bytes());
        central.extend_from_slice(&(data.len() as u32).to_le_bytes());
        central.extend_from_slice(&(data.len() as u32).to_le_bytes());
        central.extend_from_slice(&(name.len() as u16).to_le_bytes());
        central.extend_from_slice(&[0, 0, 0, 0, 0, 0, 0, 0, 0, 0, 0, 0]);
        central.extend_from_slice(&offset.to_le_bytes());
        central.extend_from_slice(name);
    }
    let start = bytes.len() as u32;
    let size = central.len() as u32;
    bytes.extend_from_slice(&central);
    bytes.extend_from_slice(&[0x50, 0x4b, 0x05, 0x06, 0, 0, 0, 0, 2, 0, 2, 0]);
    bytes.extend_from_slice(&size.to_le_bytes());
    bytes.extend_from_slice(&start.to_le_bytes());
    bytes.extend_from_slice(&[0, 0]);
    bytes
}

#[test]
fn the_entries_of_a_zip_archive_come_in_order() {
    let mut entries = ZipEntries::open(small_zip()).unwrap();
    assert_eq!(entries.remaining(), 2);
    assert_eq!(
        entries.next(),
        Some(ArchiveEntry { name: b"dir/".to_vec(), is_dir: true, data: Vec::new() })
    );
    assert_eq!(entries.remaining(), 1);
    assert_eq!(
        entries.next(),
        Some(ArchiveEntry { name: b"dir/a.txt".to_vec(), is_dir: false, data: b"hi".to_vec() })
    );
    assert_eq!(entries.remaining(), 0);
    assert_eq!(entries.next(), None);
    assert_eq!(entries.next(), None);
    assert_eq!(entries.remaining(), 0);
}

#[test]
fn bytes_that_are_no_zip_archive_are_refused() {
    let error = ZipEntries::open(b"not a zip archive".to_vec()).err().unwrap();
    assert!(matches!(error, ArchiveError::ZipInvalid(_)));
    assert_eq!(error.kind(), FailureKind::FormatFailure);
    assert!(!error.to_string().is_empty());
    assert!(ZipEntries::open(Vec::new()).is_err());
}

#[test]
fn a_cleaned_path_is_held_to_the_rules_whatever_it_is() {
    let path = |text: &str| Some(text.to_string());
    assert_eq!(cleaned_entry_action(path("include/foo.inc"), false, "linux"), write("include/foo.inc", false));
    assert_eq!(cleaned_entry_action(path(&exe()), false, "linux"), write(&exe(), true));
    assert_eq!(cleaned_entry_action(path("include/foo.inc"), true, "linux"), EntryAction::Skip);
    assert_eq!(cleaned_entry_action(path("include/../../x"), false, "linux"), EntryAction::Skip);
    assert_eq!(cleaned_entry_action(path("../include/x"), false, "linux"), EntryAction::Skip);
    assert_eq!(cleaned_entry_action(path("/include/x"), false, "linux"), EntryAction::Skip);
    assert_eq!(cleaned_entry_action(path("plugins/x"), false, "linux"), EntryAction::Skip);
    assert_eq!(cleaned_entry_action(path(""), false, "linux"), EntryAction::Skip);
    assert_eq!(cleaned_entry_action(path("."), false, "linux"), EntryAction::Skip);
    assert_eq!(cleaned_entry_action(None, false, "linux"), EntryAction::Skip);
    assert_eq!(
        cleaned_entry_action(path("include\\foo.inc"), false, "windows"),
        write("include\\foo.inc", false)
    );
    assert_eq!(cleaned_entry_action(path("include\\..\\x"), false, "windows"), EntryAction::Skip);
}

#[test]
fn a_zip_archive_in_several_parts_is_refused() {
    let mut bytes = vec![0x50, 0x4b, 0x05, 0x06];
    bytes.extend_from_slice(&[1, 0, 0, 0, 0, 0, 0, 0, 0, 0, 0, 0, 0, 0, 0, 0, 0, 0]);
    let error = ZipEntries::open(bytes).err().unwrap();
    assert!(matches!(error, ArchiveError::ZipInvalid(_) | ArchiveError::ZipUnsupported(_)));
    assert_eq!(error.kind(), FailureKind::FormatFailure);
}

#[test]
fn archive_errors_say_what_the_reader_said() {
    assert_eq!(ArchiveError::ZipInvalid("no archive".to_string()).to_string(), "no archive");
    assert_eq!(ArchiveError::ZipUnsupported("too new".to_string()).to_string(), "too new");
    assert_eq!(ArchiveError::ZipInvalid(String::new()).to_string(), "");
}

#[test]
fn the_reader_s_own_words_are_the_message() {
    let error = ZipEntries::open(b"not a zip archive".to_vec()).err().unwrap();
    let message = error.to_string();
    assert!(!message.is_empty());
    assert!(!message.starts_with("invalid Zip archive"), "{}", message);
}

#[test]
fn an_entry_is_written_exactly_where_it_passes() {
    let cases: [(&str, bool, Option<&str>); 8] = [
        ("addons/sourcemod/scripting/include/foo.inc", false, Some("include/foo.inc")),
        ("addons/sourcemod/scripting/include/a/../foo.inc", false, Some("include/foo.inc")),
        ("addons/sourcemod/scripting/include/foo.inc", true, None),
        ("addons/sourcemod/scripting/include/../../x", false, None),
        ("addons/sourcemod/scripting/readme.txt", false, None),
        ("addons/sourcemod/scripting/", false, None),
        ("addons/sourcemod/include/foo.inc", false, None),
        ("include/foo.inc", false, None),
    ];
    for (name, is_dir, expected) in cases {
        let action = entry_action(name.as_bytes().to_vec(), is_dir, "linux");
        match expected {
            Some(path) => assert_eq!(action, write(path, false), "{}", name),
            None => assert_eq!(action, EntryAction::Skip, "{}", name),
        }
        let mapped = map_to_sp_root(name.to_string(), "linux");
        if let EntryAction::Write { path, .. } = &action {
            assert_eq!(mapped.as_ref(), Some(path));
        }
    }
}
