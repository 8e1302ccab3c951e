use rookup::config::{ConfigData, Source, DEFAULT_MAX_DOWNLOAD_SIZE, DEFAULT_ROOT_URL};
use rookup::selector::{Selector, SUPER_PREFIX};

fn config_with(aliases: &[(&str, &str)]) -> ConfigData {
    let mut data = ConfigData::default();
    for (name, version) in aliases {
        data.aliases.insert(name.to_string(), version.to_string());
    }
    data
}

#[test]
fn a_leading_marker_makes_a_version_prefix() {
    assert_eq!(SUPER_PREFIX, ':');
    assert_eq!(Selector::parse(":1.12"), Selector::Super("1.12"));
    assert_eq!(Selector::parse(":"), Selector::Super(""));
    assert_eq!(Selector::parse("::1"), Selector::Super(":1"));
}

#[test]
fn any_other_text_is_an_alias() {
    assert_eq!(Selector::parse("stable"), Selector::Alias("stable"));
    assert_eq!(Selector::parse(""), Selector::Alias(""));
    assert_eq!(Selector::parse("1.12"), Selector::Alias("1.12"));
    assert_eq!(Selector::parse("a:b"), Selector::Alias("a:b"));
}

#[test]
fn a_prefix_selects_itself_and_its_refinements() {
    let data = config_with(&[]);
    let selector = Selector::parse(":1.12");
    assert!(selector.test(&data, "1.12"));
    assert!(selector.test(&data, "1.12.0"));
    assert!(selector.test(&data, "1.12.0.7192"));
    assert!(!selector.test(&data, "1.120"));
    assert!(!selector.test(&data, "1.1"));
    assert!(!selector.test(&data, "1"));
    assert!(!selector.test(&data, "1.11.0.6970"));
    assert!(!selector.test(&data, ""));
}

#[test]
fn an_alias_selects_exactly_what_the_table_holds() {
    let data = config_with(&[("stable", "1.11.0.6970"), ("1.12", "1.12.0.7192")]);
    let stable = Selector::parse("stable");
    assert!(stable.test(&data, "1.11.0.6970"));
    assert!(!stable.test(&data, "1.11.0"));
    assert!(!stable.test(&data, "1.11.0.6970.1"));
    assert!(!stable.test(&data, "1.12.0.7192"));
    // An alias that looks like a version is still looked up, not compared.
    let named = Selector::parse("1.12");
    assert!(named.test(&data, "1.12.0.7192"));
    assert!(!named.test(&data, "1.12"));
}

#[test]
fn an_alias_that_is_not_defined_selects_nothing() {
    let data = config_with(&[("stable", "1.11.0.6970")]);
    assert!(!Selector::parse("latest").test(&data, "1.11.0.6970"));
    assert!(!Selector::parse("latest").test(&data, ""));
}

#[test]
fn the_kind_of_a_selector_can_be_asked() {
    assert!(Selector::parse("stable").is_alias());
    assert!(!Selector::parse(":1.12").is_alias());
    assert_eq!(Selector::parse("stable").to_alias(), Some("stable"));
    assert_eq!(Selector::parse(":1.12").to_alias(), None);
    assert_eq!(Selector::parse(":1.12").as_str(), "1.12");
    assert_eq!(Selector::parse("stable").as_str(), "stable");
}

#[test]
fn a_selector_is_written_as_it_is_read() {
    for text in ["stable", ":1.12", "", ":", "::x", "a:b"] {
        assert_eq!(Selector::parse(text).to_string(), text);
    }
    assert_eq!(Selector::Super("1.11").to_string(), ":1.11");
    assert_eq!(Selector::Alias("latest").to_string(), "latest");
}

#[test]
fn a_fresh_configuration_has_the_documented_values() {
    let data = ConfigData::default();
    assert_eq!(data.default, "stable");
    assert!(data.aliases.is_empty());
    assert_eq!(data.source, Source::default());
    assert_eq!(data.source.root_url, "https://sm.alliedmods.net/smdrop/");
    assert_eq!(data.source.root_url, DEFAULT_ROOT_URL);
    assert_eq!(data.source.max_download_size, 75_000_000);
    assert_eq!(DEFAULT_MAX_DOWNLOAD_SIZE, 75_000_000);
}

#[test]
fn aliases_are_looked_up_by_name() {
    let data = config_with(&[("stable", "1.11.0.6970")]);
    assert_eq!(data.alias("stable"), Some(&"1.11.0.6970".to_string()));
    assert_eq!(data.alias("latest"), None);
    assert_eq!(data.alias(""), None);
}
