use rookup::smdrop::listing::{
    is_href, DirectoryItem, DirectoryItemError, DirectoryItems, OwnedDirectoryItems, Tag, ANCHOR,
    HREF,
};

const LISTING: &str = r#"
<!DOCTYPE HTML PUBLIC "-//W3C//DTD HTML 3.2 Final//EN">
<html>
 <head>
  <title>Index of /smdrop/1.12</title>
 </head>
 <body>
<h1>Index of /smdrop/1.12</h1>
<ul><li><a href="/smdrop/"> Parent Directory</a></li>
<li><a href="sourcemod-1.12.0-git7177-linux.tar.gz"> sourcemod-1.12.0-git7177-linux.tar.gz</a></li>
<li><a href="sourcemod-1.12.0-git7177-windows.zip"> sourcemod-1.12.0-git7177-windows.zip</a></li>
<li><a href="sourcemod-latest-linux"> sourcemod-latest-linux</a></li>
<li><a href="sourcemod-latest-windows"> sourcemod-latest-windows</a></li>
</ul>
<address>Apache/2.4.41 (Unix) OpenSSL/1.1.1n mod_fcgid/2.3.9 mod_wsgi/4.7.1 Python/2.7 mod_perl/2.0.11 Perl/v5.28.1 Server at sm.alliedmods.net Port 80</address>
</body></html>
"#;

fn check_items(items: Vec<DirectoryItem>) {
    assert_eq!(items[0], DirectoryItem::Directory("/smdrop/".into()));
    assert_eq!(items[1], DirectoryItem::File("sourcemod-1.12.0-git7177-linux.tar.gz".into()));
    assert_eq!(
        items,
        vec![
            "/smdrop/".into(),
            "sourcemod-1.12.0-git7177-linux.tar.gz".into(),
            "sourcemod-1.12.0-git7177-windows.zip".into(),
            "sourcemod-latest-linux".into(),
            "sourcemod-latest-windows".into(),
        ]
    );
}

#[test]
fn listing_works() {
    let listing_str = LISTING;
    check_items({
        let result: Result<Vec<_>, _> = DirectoryItems::from_str(listing_str).collect();
        result.unwrap()
    });
    check_items({
        let result: Result<Vec<_>, _> = OwnedDirectoryItems::new(listing_str.into()).collect();
        result.unwrap()
    });
    check_items({
        let result: Result<Vec<_>, _> = OwnedDirectoryItems::new(listing_str.into()).collect();
        result.unwrap()
    });
}

#[test]
fn links_are_classified_by_their_last_character() {
    assert_eq!(DirectoryItem::from("1.12/"), DirectoryItem::Directory("1.12/".to_string()));
    assert_eq!(DirectoryItem::from("1.12"), DirectoryItem::File("1.12".to_string()));
    assert_eq!(DirectoryItem::from(String::new()), DirectoryItem::File(String::new()));
    assert_eq!(DirectoryItem::from("/"), DirectoryItem::Directory("/".to_string()));
    assert_eq!(DirectoryItem::from_link("a/b"), DirectoryItem::File("a/b".to_string()));
    assert_eq!(DirectoryItem::from_link("a/b/").as_str(), "a/b/");
}

#[test]
fn other_markup_is_passed_over() {
    let page = "<p>text<!-- a comment --><b class=x>bold</b><a name=top>no link</a><a href=\"x/\">x</a></p>";
    let listing = DirectoryItems::from_str(page);
    assert_eq!(listing.items(), &vec![DirectoryItem::Directory("x/".to_string())]);
    assert_eq!(listing.collect().unwrap(), vec![DirectoryItem::Directory("x/".to_string())]);
}

#[test]
fn self_closing_anchors_are_no_entries() {
    let listing = DirectoryItems::from_str("<a href=\"x\"/><a href=\"y\">y</a>");
    assert_eq!(listing.collect().unwrap(), vec![DirectoryItem::File("y".to_string())]);
}

#[test]
fn the_first_href_of_an_anchor_counts() {
    let listing = DirectoryItems::from_str("<a title=t href=one>1</a>");
    assert_eq!(listing.collect().unwrap(), vec![DirectoryItem::File("one".to_string())]);
}

#[test]
fn escapes_in_links_are_resolved() {
    let listing = DirectoryItems::from_str("<a href=\"a&amp;b/\">x</a>");
    assert_eq!(listing.collect().unwrap(), vec![DirectoryItem::Directory("a&b/".to_string())]);
}

#[test]
fn an_empty_page_has_no_entries() {
    assert_eq!(DirectoryItems::from_str("").collect().unwrap(), Vec::<DirectoryItem>::new());
    assert_eq!(OwnedDirectoryItems::new(String::new()).items().len(), 0);
}

#[test]
fn entries_before_a_broken_place_are_kept() {
    let listing = DirectoryItems::from_str("<a href=\"1.11/\">1.11</a></b><a href=\"1.12/\">1.12</a>");
    assert_eq!(listing.items(), &vec![DirectoryItem::Directory("1.11/".to_string())]);
    assert!(matches!(listing.collect(), Err(DirectoryItemError::Xml(_))));
}

#[test]
fn a_wrong_escape_in_a_link_is_an_error() {
    let listing = DirectoryItems::from_str("<a href=\"a&nosuch;b\">x</a>");
    assert_eq!(listing.items().len(), 0);
    assert!(matches!(listing.collect(), Err(DirectoryItemError::Xml(_))));
}

#[test]
fn anchors_and_their_links_are_told_by_name() {
    assert_eq!(ANCHOR, "a");
    assert_eq!(HREF, "href");
    let anchor = Tag::Open { name: "a".to_string(), attributes: " href=x".to_string() };
    assert!(anchor.is_anchor());
    assert_eq!(anchor.attributes(), " href=x");
    let other = Tag::Open { name: "A".to_string(), attributes: String::new() };
    assert!(!other.is_anchor());
    assert!(!Tag::Open { name: "at".to_string(), attributes: String::new() }.is_anchor());
    assert!(!Tag::End.is_anchor());
    assert!(!Tag::Other.is_anchor());
    assert_eq!(Tag::End.attributes(), "");
    assert!(is_href("href"));
    assert!(!is_href("HREF"));
    assert!(!is_href("hre"));
    assert!(!is_href(""));
}

#[test]
fn tag_names_are_matched_as_they_are_written() {
    let listing = DirectoryItems::from_str("<A HREF=\"x\">x</A><a HREF=\"y\">y</a><a href=\"z\">z</a>");
    assert_eq!(listing.collect().unwrap(), vec![DirectoryItem::File("z".to_string())]);
}

#[test]
fn attributes_that_cannot_be_told_apart_are_an_error() {
    let listing = DirectoryItems::from_str("<a x=\"1\" x=\"2\" href=\"y\">y</a>");
    assert_eq!(listing.items().len(), 0);
    assert!(matches!(listing.collect(), Err(DirectoryItemError::Attr(_))));
}

#[test]
fn line_breaks_and_tabs_in_links_become_spaces() {
    let listing = DirectoryItems::from_str("<a href=\"a\tb&lt;c\nd\">x</a>");
    assert_eq!(listing.collect().unwrap(), vec![DirectoryItem::File("a b<c d".to_string())]);
}

#[test]
fn only_the_value_of_the_link_is_resolved() {
    let listing = DirectoryItems::from_str("<a title=\"&nosuch;\" href=\"x/\">x</a>");
    assert_eq!(listing.collect().unwrap(), vec![DirectoryItem::Directory("x/".to_string())]);
    let listing = DirectoryItems::from_str("<a href=\"x/\" title=\"&nosuch;\">x</a><a href=y>y</a>");
    assert_eq!(
        listing.collect().unwrap(),
        vec![DirectoryItem::Directory("x/".to_string()), DirectoryItem::File("y".to_string())]
    );
}

#[test]
fn a_tag_that_closes_at_once_is_no_anchor() {
    let closed = Tag::Empty { name: "a".to_string(), attributes: " href=x".to_string() };
    assert!(!closed.is_anchor());
    assert_eq!(closed.attributes(), "");
    let listing = DirectoryItems::from_str("<br/><a href=\"x\"/><img src=y /><a href=z>z</a>");
    assert_eq!(listing.collect().unwrap(), vec![DirectoryItem::File("z".to_string())]);
}
