use core::cmp::Ordering;

use rookup::config::ConfigData;
use rookup::selector::Selector;
use rookup::smdrop::archive::{ArchiveKind, ArchiveKindErr};
use rookup::smdrop::branches::{branches_of, Branch};
use rookup::smdrop::listing::{DirectoryItem, DirectoryItems};
use rookup::smdrop::versions::{versions_of, UrlVersionStr, Version, VersionStr, VersionUrl};
use rookup::smdrop::ClientParams;
use rookup::smdrop_util::{
    install_needs_download, is_upgrade, newest_version, relevant_urls, select_branch,
    select_version, update_needs_download, RelevantUrl, SelectBranchError,
};
use rookup::text::{ chars_eq, chars_of, find_char, find_chars, has_prefix, has_suffix, matches_at, owned, rfind_char, str_eq, };

const ROOT: &str = "https://sm.alliedmods.net/smdrop/";

fn url(text: &str) -> VersionUrl {
    VersionUrl(text.to_string())
}

fn branches(names: &[&str]) -> Vec<Branch> {
    names.iter().map(|name| Branch::new(name.to_string())).collect()
}

fn config_with(aliases: &[(&str, &str)]) -> ConfigData {
    let mut data = ConfigData::default();
    for (name, version) in aliases {
        data.aliases.insert(name.to_string(), version.to_string());
    }
    data
}

#[test]
fn a_url_is_read_as_product_version_target() {
    let u = url("https://sm.alliedmods.net/smdrop/1.12/sourcemod-1.12.0-git7192-linux.tar.gz");
    assert_eq!(u.file_name(), "sourcemod-1.12.0-git7192-linux.tar.gz");
    assert_eq!(u.target(), Some("linux"));
    assert_eq!(u.version_str(), Some(VersionStr("1.12.0-git7192")));
    let w = url("sourcemod-1.12.0-git7192-windows.zip");
    assert_eq!(w.file_name(), "sourcemod-1.12.0-git7192-windows.zip");
    assert_eq!(w.target(), Some("windows"));
    assert_eq!(w.version_str(), Some(VersionStr("1.12.0-git7192")));
}

#[test]
fn a_url_without_the_pieces_has_none() {
    assert_eq!(url("a/b/").file_name(), "");
    assert_eq!(url("a/b/").target(), None);
    assert_eq!(url("a/b/").version_str(), None);
    assert_eq!(url("plain").target(), None);
    assert_eq!(url("plain").version_str(), None);
    assert_eq!(url("one-dash").target(), Some("dash"));
    assert_eq!(url("one-dash").version_str(), None);
    assert_eq!(url("a-b-c").version_str(), Some(VersionStr("b")));
    assert_eq!(url("a--c.d.e").version_str(), Some(VersionStr("")));
    assert_eq!(url("a--c.d.e").target(), Some("c"));
    assert_eq!(url("x-y/sourcemod-latest-linux").target(), Some("linux"));
    assert_eq!(url("x-y/sourcemod-latest-linux").version_str(), Some(VersionStr("latest")));
}

#[test]
fn the_revision_becomes_a_part() {
    assert_eq!(VersionStr("1.12.0-git7192").normalized(), "1.12.0.7192");
    assert_eq!(VersionStr("1.12.0-git7192").to_string(), "1.12.0.7192");
    assert_eq!(VersionStr("1.12.0").normalized(), "1.12.0");
    assert_eq!(VersionStr("").normalized(), "");
    assert_eq!(VersionStr("-git").normalized(), ".");
    assert_eq!(VersionStr("1-git2-git3").normalized(), "1.2-git3");
    assert_eq!(VersionStr("1.12-gi").normalized(), "1.12-gi");
}

#[test]
fn a_version_is_written_as_file_names_write_it() {
    assert_eq!(UrlVersionStr("1.12.0.7192").to_string(), "1.12.0-git7192");
    assert_eq!(UrlVersionStr("1.12").to_string(), "1-git12");
    assert_eq!(UrlVersionStr("7").to_string(), "7");
    assert_eq!(UrlVersionStr("").to_string(), "");
    assert_eq!(UrlVersionStr("1.2.3").to_string(), "1.2-git3");
    assert_eq!(VersionStr("1.12.0-git7192").normalized(), "1.12.0.7192");
}

#[test]
fn only_archives_for_this_platform_that_name_a_version_are_relevant() {
    let linux = url("https://host/1.12/sourcemod-1.12.0-git7192-linux.tar.gz");
    let relevant = RelevantUrl::new(linux, "linux").unwrap();
    assert_eq!(relevant.url(), "https://host/1.12/sourcemod-1.12.0-git7192-linux.tar.gz");
    assert_eq!(relevant.version(), "1.12.0.7192");
    assert!(RelevantUrl::new(url("sourcemod-1.12.0-git7192-windows.zip"), "linux").is_none());
    assert!(RelevantUrl::new(url("sourcemod-1.12.0-git7192-windows.zip"), "windows").is_some());
    assert!(RelevantUrl::new(url("sourcemod-latest-linux"), "linux").is_none());
    assert!(RelevantUrl::new(url("sourcemod-latest-linux.tar.gz"), "linux").is_none());
    assert!(RelevantUrl::new(url("sourcemod-linux"), "linux").is_none());
    assert!(RelevantUrl::new(url("readme"), "linux").is_none());
    assert!(RelevantUrl::new(url("sourcemod-1.12.0-git7192-linux.tar.gz"), "").is_none());
}

#[test]
fn relevant_archives_are_ordered_by_version() {
    let old = RelevantUrl::new(url("sourcemod-1.12.0-git7177-linux.tar.gz"), "linux").unwrap();
    let new = RelevantUrl::new(url("sourcemod-1.12.0-git7192-linux.tar.gz"), "linux").unwrap();
    assert_eq!(old.version_ord(&new), Ordering::Less);
    assert_eq!(new.version_ord(&old), Ordering::Greater);
    assert_eq!(new.version_ord(&new), Ordering::Equal);
}

#[test]
fn branches_are_the_relative_directories() {
    let items = vec![
        DirectoryItem::from("/smdrop/"),
        DirectoryItem::from("1.11/"),
        DirectoryItem::from("readme.txt"),
        DirectoryItem::from("1.12/"),
        DirectoryItem::from("/"),
    ];
    let found = branches_of(&items);
    assert_eq!(found, branches(&["1.11", "1.12"]));
    assert_eq!(found[0].name(), "1.11");
    assert_eq!(found[1].to_string(), "1.12");
    assert_eq!(found[1].url(ROOT), "https://sm.alliedmods.net/smdrop/1.12");
    assert_eq!(found[1].versions_root(ROOT), "https://sm.alliedmods.net/smdrop/1.12/");
    assert_eq!(found[0].clone().into_string(), "1.11");
    assert_eq!(branches_of(&Vec::new()), Vec::<Branch>::new());
    // A directory entry made by hand loses its last character whatever it is.
    assert_eq!(branches_of(&vec![DirectoryItem::Directory("abc".to_string())]), branches(&["ab"]));
    assert_eq!(branches_of(&vec![DirectoryItem::Directory(String::new())]), branches(&[""]));
}

#[test]
fn versions_are_the_files_below_the_branch() {
    let items = vec![
        DirectoryItem::from("/smdrop/"),
        DirectoryItem::from("sourcemod-1.12.0-git7192-linux.tar.gz"),
        DirectoryItem::from("sub/"),
        DirectoryItem::from("sourcemod-latest-linux"),
    ];
    let root = Branch::new("1.12".to_string()).versions_root(ROOT);
    let found = versions_of(&items, &root);
    assert_eq!(found.len(), 2);
    assert_eq!(
        found[0].as_str(),
        "https://sm.alliedmods.net/smdrop/1.12/sourcemod-1.12.0-git7192-linux.tar.gz"
    );
    assert_eq!(
        found[1].clone().into_url(),
        url("https://sm.alliedmods.net/smdrop/1.12/sourcemod-latest-linux")
    );
    assert_eq!(found[1], Version::new(url("https://sm.alliedmods.net/smdrop/1.12/sourcemod-latest-linux")));
}

#[test]
fn latest_selects_the_newest_branch() {
    let data = config_with(&[]);
    let all = branches(&["1.9", "1.12", "1.10", "1.11"]);
    assert_eq!(select_branch(all, &data, Selector::parse("latest")), Ok(Branch::new("1.12".to_string())));
    assert_eq!(
        select_branch(Vec::new(), &data, Selector::parse("latest")),
        Err(SelectBranchError::NoLatest { selector: "latest".to_string() })
    );
}

#[test]
fn stable_selects_the_newest_branch_but_one() {
    let data = config_with(&[]);
    let all = branches(&["1.9", "1.12", "1.10", "1.11"]);
    assert_eq!(select_branch(all, &data, Selector::parse("stable")), Ok(Branch::new("1.11".to_string())));
    let two = branches(&["1.12", "1.11"]);
    assert_eq!(select_branch(two, &data, Selector::parse("stable")), Ok(Branch::new("1.11".to_string())));
    let two = branches(&["1.11", "1.12"]);
    assert_eq!(select_branch(two, &data, Selector::parse("stable")), Ok(Branch::new("1.11".to_string())));
    assert_eq!(
        select_branch(branches(&["1.12"]), &data, Selector::parse("stable")),
        Err(SelectBranchError::NoStable { selector: "stable".to_string() })
    );
    assert_eq!(
        select_branch(Vec::new(), &data, Selector::parse("stable")),
        Err(SelectBranchError::NoStable { selector: "stable".to_string() })
    );
}

#[test]
fn builtin_aliases_are_not_looked_up() {
    let data = config_with(&[("latest", "1.10.0.1"), ("stable", "1.10.0.1")]);
    let all = branches(&["1.10", "1.11", "1.12"]);
    assert_eq!(select_branch(all.clone(), &data, Selector::parse("latest")), Ok(Branch::new("1.12".to_string())));
    assert_eq!(select_branch(all, &data, Selector::parse("stable")), Ok(Branch::new("1.11".to_string())));
}

#[test]
fn other_aliases_select_the_branch_of_their_version() {
    let data = config_with(&[("mine", "1.11.0.6970"), ("lost", "2.0.0.1")]);
    let all = branches(&["1.10", "1.11", "1.12"]);
    assert_eq!(select_branch(all.clone(), &data, Selector::parse("mine")), Ok(Branch::new("1.11".to_string())));
    assert_eq!(
        select_branch(all.clone(), &data, Selector::parse("lost")),
        Err(SelectBranchError::NoBranch {
            selector: "lost".to_string(),
            version: "2.0.0.1".to_string(),
        })
    );
    assert_eq!(
        select_branch(all, &data, Selector::parse("none")),
        Err(SelectBranchError::UnresolvedAlias {
            selector: "none".to_string(),
            alias: "none".to_string(),
        })
    );
}

#[test]
fn a_prefix_selects_the_first_branch_that_holds_it() {
    let data = config_with(&[]);
    let all = branches(&["1.10", "1", "1.11", "1.12"]);
    assert_eq!(select_branch(all.clone(), &data, Selector::parse(":1.11.0")), Ok(Branch::new("1".to_string())));
    assert_eq!(select_branch(all.clone(), &data, Selector::parse(":1.10")), Ok(Branch::new("1.10".to_string())));
    assert_eq!(
        select_branch(all, &data, Selector::parse(":2.0")),
        Err(SelectBranchError::NoBranch { selector: ":2.0".to_string(), version: "2.0".to_string() })
    );
    // The prefix must refine the branch, not the branch the prefix.
    assert_eq!(
        select_branch(branches(&["1.12"]), &data, Selector::parse(":1")),
        Err(SelectBranchError::NoBranch { selector: ":1".to_string(), version: "1".to_string() })
    );
}

#[test]
fn select_errors_have_messages() {
    assert_eq!(
        SelectBranchError::NoLatest { selector: "latest".to_string() }.to_string(),
        "couldn't select latest branch with selector \"latest\""
    );
    assert_eq!(
        SelectBranchError::NoStable { selector: "stable".to_string() }.to_string(),
        "couldn't select latest stable branch with selector \"stable\""
    );
    assert_eq!(
        SelectBranchError::UnresolvedAlias { selector: "x".to_string(), alias: "x".to_string() }
            .to_string(),
        "failed to resolve alias \"x\" of selector \"x\""
    );
    assert_eq!(
        SelectBranchError::NoBranch { selector: ":2".to_string(), version: "2".to_string() }
            .to_string(),
        "couldn't select branch with version \"2\" for selector \":2\""
    );
}

#[test]
fn a_listing_leads_to_the_archive_to_install() {
    let root_page = "<html><body><ul>\
        <li><a href=\"/\"> Parent Directory</a></li>\
        <li><a href=\"1.11/\"> 1.11/</a></li>\
        <li><a href=\"1.12/\"> 1.12/</a></li>\
        </ul></body></html>";
    let branch_page = "<html><body><ul>\
        <li><a href=\"/smdrop/\"> Parent Directory</a></li>\
        <li><a href=\"sourcemod-1.12.0-git7192-linux.tar.gz\"> a</a></li>\
        <li><a href=\"sourcemod-1.12.0-git7192-windows.zip\"> b</a></li>\
        <li><a href=\"sourcemod-latest-linux\"> c</a></li>\
        </ul></body></html>";
    let data = config_with(&[]);
    let found = branches_of(&DirectoryItems::from_str(root_page).collect().unwrap());
    assert_eq!(found, branches(&["1.11", "1.12"]));
    let latest = select_branch(found.clone(), &data, Selector::parse("latest")).unwrap();
    assert_eq!(latest.name(), "1.12");
    let stable = select_branch(found, &data, Selector::parse("stable")).unwrap();
    assert_eq!(stable.name(), "1.11");

    let items = DirectoryItems::from_str(branch_page).collect().unwrap();
    let versions = versions_of(&items, &latest.versions_root(ROOT));
    assert_eq!(versions.len(), 3);
    let linux = relevant_urls(&versions, "linux");
    assert_eq!(linux.len(), 1);
    assert_eq!(linux[0].version(), "1.12.0.7192");
    assert_eq!(
        linux[0].url(),
        "https://sm.alliedmods.net/smdrop/1.12/sourcemod-1.12.0-git7192-linux.tar.gz"
    );
    assert_eq!(ArchiveKind::from_str(linux[0].url()), Ok(ArchiveKind::TarGz));
    let windows = relevant_urls(&versions, "windows");
    assert_eq!(windows.len(), 1);
    assert_eq!(windows[0].version(), "1.12.0.7192");
    assert_eq!(ArchiveKind::from_str(windows[0].url()), Ok(ArchiveKind::Zip));
    assert_eq!(relevant_urls(&versions, "macos").len(), 0);
}

#[test]
fn the_newest_archive_is_installed() {
    let versions: Vec<Version> = [
        "sourcemod-1.12.0-git7100-linux.tar.gz",
        "sourcemod-1.12.0-git7192-linux.tar.gz",
        "sourcemod-1.12.0-git999-linux.tar.gz",
        "sourcemod-1.12.1-git10-linux.tar.gz",
        "sourcemod-1.12.0-git7150-linux.tar.gz",
    ]
    .iter()
    .map(|name| Version::new(url(name)))
    .collect();
    let urls = relevant_urls(&versions, "linux");
    assert_eq!(urls.len(), 5);
    assert_eq!(newest_version(&urls), Some(3));
    assert_eq!(select_version(&urls, Selector::parse("stable")), Some(3));
    assert_eq!(select_version(&urls, Selector::parse(":1.12.0")), Some(1));
    assert_eq!(select_version(&urls, Selector::parse(":1.12.0.7150")), Some(4));
    assert_eq!(select_version(&urls, Selector::parse(":1.13")), None);
    assert_eq!(newest_version(&Vec::new()), None);
    assert_eq!(select_version(&Vec::new(), Selector::parse("latest")), None);
}

#[test]
fn a_download_is_due_for_what_is_new_and_missing() {
    assert!(is_upgrade(None, "1.12.0.7192"));
    assert!(is_upgrade(Some("1.12.0.7100"), "1.12.0.7192"));
    assert!(!is_upgrade(Some("1.12.0.7192"), "1.12.0.7192"));
    assert!(!is_upgrade(Some("1.12.0.7200"), "1.12.0.7192"));
    assert!(!is_upgrade(Some("1.12"), "1.12.0.7192"));
    assert!(update_needs_download(true, false, true));
    assert!(update_needs_download(false, true, false));
    assert!(!update_needs_download(false, true, true));
    assert!(!update_needs_download(false, false, false));
    assert!(install_needs_download(true, true));
    assert!(install_needs_download(false, false));
    assert!(!install_needs_download(false, true));
}

#[test]
fn the_format_is_read_off_the_end_of_the_url() {
    assert_eq!(ArchiveKind::from_str("a.zip"), Ok(ArchiveKind::Zip));
    assert_eq!(ArchiveKind::from_str("a.tar.gz"), Ok(ArchiveKind::TarGz));
    assert_eq!(ArchiveKind::from_str(".zip"), Ok(ArchiveKind::Zip));
    assert_eq!(ArchiveKind::from_str("a.tar.gz.zip"), Ok(ArchiveKind::Zip));
    assert_eq!(ArchiveKind::from_str("a.zip.tar.gz"), Ok(ArchiveKind::TarGz));
    assert_eq!(ArchiveKind::from_str("a.tar"), Err(ArchiveKindErr::Unsupported));
    assert_eq!(ArchiveKind::from_str("a.gz"), Err(ArchiveKindErr::Unsupported));
    assert_eq!(ArchiveKind::from_str("a.ZIP"), Err(ArchiveKindErr::Unsupported));
    assert_eq!(ArchiveKind::from_str("zip"), Err(ArchiveKindErr::Unsupported));
    assert_eq!(ArchiveKind::from_str(""), Err(ArchiveKindErr::Unsupported));
    assert_eq!("x.zip".parse::<ArchiveKind>(), Ok(ArchiveKind::Zip));
    assert_eq!("x".parse::<ArchiveKind>(), Err(ArchiveKindErr::Unsupported));
    assert_eq!(ArchiveKindErr::Unsupported.to_string(), "unsupported archive format");
}

#[test]
fn client_parameters_hold_the_root() {
    let params = ClientParams { root_url: ROOT.to_string() };
    assert_eq!(params.clone(), params);
    assert_eq!(params.root_url, ROOT);
}

#[test]
fn text_is_searched_by_characters() {
    let s = chars_of("a-b-c\u{e9}");
    assert_eq!(s, vec!['a', '-', 'b', '-', 'c', '\u{e9}']);
    assert_eq!(find_char(&s, '-'), 1);
    assert_eq!(find_char(&s, 'x'), 6);
    assert_eq!(rfind_char(&s, '-'), Some(3));
    assert_eq!(rfind_char(&s, 'x'), None);
    assert_eq!(find_chars(&s, &chars_of("b-")), 2);
    assert_eq!(find_chars(&s, &chars_of("bb")), 6);
    assert_eq!(find_chars(&s, &chars_of("")), 0);
    assert_eq!(find_chars(&chars_of(""), &chars_of("")), 0);
    assert!(matches_at(&s, &chars_of("-c"), 3));
    assert!(!matches_at(&s, &chars_of("-c"), 1));
    assert!(!matches_at(&s, &chars_of("\u{e9}x"), 5));
    assert!(matches_at(&s, &chars_of(""), 6));
    assert!(has_prefix(&s, &chars_of("a-")));
    assert!(!has_prefix(&s, &chars_of("-")));
    assert!(has_prefix(&s, &chars_of("")));
    assert!(has_suffix(&s, &chars_of("c\u{e9}")));
    assert!(!has_suffix(&s, &chars_of("c")));
    assert!(!has_suffix(&chars_of("c"), &s));
    assert!(chars_eq(&s, &chars_of("a-b-c\u{e9}")));
    assert!(!chars_eq(&s, &chars_of("a-b-c")));
    assert!(str_eq("\u{e9}", "\u{e9}"));
    assert!(!str_eq("e", "\u{e9}"));
    assert!(!matches_at(&s, &chars_of(""), 7));
    assert!(!matches_at(&s, &chars_of("a"), 9));
    assert_eq!(owned("abc"), "abc");
}
