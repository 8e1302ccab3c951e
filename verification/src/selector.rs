//! Selectors: the text by which a user or the configuration names a
//! toolchain, either an alias or a version prefix.

use vstd::prelude::*;

use crate::config::ConfigData;
use crate::text::{chars_of, owned, slice_of, str_eq};
use crate::version::{refines, Version};

verus! {

/// The character that begins the text of a version-prefix selector.
pub const SUPER_PREFIX: char = ':';

/// A parsed selector, written `':' super_version | alias`.
#[derive(Debug, Clone, Copy, PartialEq, Eq, PartialOrd, Ord, Hash)]
pub enum Selector<'a> {
    /// Any version that is this prefix or refines it.
    Super(&'a str),
    /// The version that this alias stands for.
    Alias(&'a str),
}

/// A selector as a mathematical value.
pub enum SelectorView {
    Super(Seq<char>),
    Alias(Seq<char>),
}

/// The selector that the text `s` is read as.
pub open spec fn parsed(s: Seq<char>) -> SelectorView {
    if s.len() > 0 && s[0] == SUPER_PREFIX {
        SelectorView::Super(s.skip(1))
    } else {
        SelectorView::Alias(s)
    }
}

/// The text that a selector is written as.
pub open spec fn written(sel: SelectorView) -> Seq<char> {
    match sel {
        SelectorView::Super(prefix) => seq![SUPER_PREFIX] + prefix,
        SelectorView::Alias(name) => name,
    }
}

/// Whether `sel` selects `version`, given what each alias stands for.
pub open spec fn selects(
    sel: SelectorView,
    aliases: Map<Seq<char>, Seq<char>>,
    version: Seq<char>,
) -> bool {
    match sel {
        SelectorView::Alias(name) => aliases.contains_key(name) && aliases[name] == version,
        SelectorView::Super(prefix) => refines(version, prefix),
    }
}

impl SelectorView {
    /// An alias name does not begin with the prefix marker: a text that
    /// does is read as a version prefix.
    pub open spec fn wf(self) -> bool {
        match self {
            SelectorView::Alias(name) => !(name.len() > 0 && name[0] == SUPER_PREFIX),
            SelectorView::Super(_) => true,
        }
    }
}

impl<'a> View for Selector<'a> {
    type V = SelectorView;

    open spec fn view(&self) -> SelectorView {
        match *self {
            Selector::Super(prefix) => SelectorView::Super(prefix@),
            Selector::Alias(name) => SelectorView::Alias(name@),
        }
    }
}

impl<'a> Selector<'a> {
    /// Reads `s` as a selector: a leading `:` makes the rest a version
    /// prefix, anything else is an alias name as a whole.
    pub fn parse(s: &'a str) -> (r: Self)
        ensures
            r@ == parsed(s@),
            r@.wf(),
    {
        let chars = chars_of(s);
        if chars.len() > 0 && chars[0] == SUPER_PREFIX {
            Selector::Super(slice_of(s, 1, chars.len()))
        } else {
            Selector::Alias(s)
        }
    }

    /// Whether this selector selects `version`: an alias where the alias
    /// table gives it exactly `version`, a prefix where `version` is the
    /// prefix or refines it.
    pub fn test(&self, data: &ConfigData, version: &str) -> (r: bool)
        ensures
            r == selects(self@, data.alias_map(), version@),
    {
        match self {
            Selector::Alias(name) => match data.alias(name) {
                Some(found) => str_eq(found.as_str(), version),
                None => false,
            },
            Selector::Super(prefix) => version.is_sub_version_of(prefix),
        }
    }

    /// Whether this selector is an alias.
    pub fn is_alias(&self) -> (r: bool)
        ensures
            r == (self@ is Alias),
    {
        match self {
            Selector::Alias(_) => true,
            Selector::Super(_) => false,
        }
    }

    /// The alias name, where this selector is an alias.
    pub fn to_alias(self) -> (r: Option<&'a str>)
        ensures
            match r {
                Some(name) => self == Selector::Alias(name),
                None => self is Super,
            },
    {
        match self {
            Selector::Alias(name) => Some(name),
            Selector::Super(_) => None,
        }
    }

    /// The text behind the selector: the alias name or the version prefix,
    /// without the marker.
    pub fn as_str(&self) -> (r: &'a str)
        ensures
            match *self {
                Selector::Super(prefix) => r == prefix,
                Selector::Alias(name) => r == name,
            },
    {
        match *self {
            Selector::Super(prefix) => prefix,
            Selector::Alias(name) => name,
        }
    }

    /// The text that this selector is written as, which `parse` reads back.
    pub fn to_string(&self) -> (r: String)
        ensures
            r@ == written(self@),
    {
        match self {
            Selector::Super(prefix) => {
                proof {
                    reveal_strlit(":");
                    assert(":"@ =~= seq![SUPER_PREFIX]);
                }
                owned(":").concat(prefix)
            },
            Selector::Alias(name) => owned(name),
        }
    }
}

/// What is written for a selector reads back as that selector, where an
/// alias name does not begin with the marker.
pub proof fn lemma_parse_written(sel: SelectorView)
    requires
        sel.wf(),
    ensures
        parsed(written(sel)) == sel,
{
    match sel {
        SelectorView::Super(prefix) => {
            assert((seq![SUPER_PREFIX] + prefix).skip(1) =~= prefix);
        },
        SelectorView::Alias(name) => {},
    }
}

/// What a text is read as is written as that text again.
pub proof fn lemma_written_parsed(s: Seq<char>)
    ensures
        written(parsed(s)) == s,
        parsed(s).wf(),
{
    if s.len() > 0 && s[0] == SUPER_PREFIX {
        assert(seq![SUPER_PREFIX] + s.skip(1) =~= s);
    }
}

/// A text that begins with the marker selects exactly the versions that are
/// the text behind the marker or refine it, whatever the aliases.
pub proof fn lemma_prefix_selector_selects(
    prefix: Seq<char>,
    aliases: Map<Seq<char>, Seq<char>>,
    version: Seq<char>,
)
    ensures
        selects(parsed(seq![SUPER_PREFIX] + prefix), aliases, version) <==> refines(
            version,
            prefix,
        ),
{
    assert((seq![SUPER_PREFIX] + prefix).skip(1) =~= prefix);
}

/// A text that does not begin with the marker selects exactly the version
/// that the alias table holds under that text.
pub proof fn lemma_alias_selector_selects(
    name: Seq<char>,
    aliases: Map<Seq<char>, Seq<char>>,
    version: Seq<char>,
)
    requires
        !(name.len() > 0 && name[0] == SUPER_PREFIX),
    ensures
        selects(parsed(name), aliases, version) <==> (aliases.contains_key(name) && aliases[name]
            == version),
{
}

} // verus!
