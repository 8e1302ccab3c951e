//! Directory listings of the archive server: what the links of a listing
//! page point at.

use quick_xml::events::attributes::{AttrError, Attribute, Attributes};
use quick_xml::events::Event;
use quick_xml::name::QName;
use quick_xml::{Error as XmlError, Reader as XmlReader};
use std::borrow::Cow;
use vstd::prelude::*;
use vstd::utf8::encode_utf8;

use crate::failure::FailureKind;
use crate::text::{chars_of, owned, str_eq};

verus! {

/// The character that ends the link to a directory and separates the
/// pieces of a path.
pub const SEPARATOR: char = '/';

/// One entry of a directory listing, by the link that names it.
#[derive(Debug, Clone, PartialEq, Eq, PartialOrd, Ord, Hash)]
pub enum DirectoryItem {
    /// A link that ends in a separator.
    Directory(String),
    /// Any other link.
    File(String),
}

/// Whether the link `href` points at a directory: whether it ends in a
/// separator.
pub open spec fn is_directory_link(href: Seq<char>) -> bool {
    href.len() > 0 && href.last() == SEPARATOR
}

impl DirectoryItem {
    /// The link of this entry.
    pub open spec fn href(self) -> Seq<char> {
        match self {
            DirectoryItem::Directory(href) => href@,
            DirectoryItem::File(href) => href@,
        }
    }

    /// The link of this entry.
    pub fn as_str(&self) -> (r: &str)
        ensures
            r@ == self.href(),
    {
        match self {
            DirectoryItem::Directory(href) => href.as_str(),
            DirectoryItem::File(href) => href.as_str(),
        }
    }
}

impl From<String> for DirectoryItem {
    /// The entry that the link `href` names.
    fn from(href: String) -> (r: DirectoryItem) {
        let chars = chars_of(href.as_str());
        if chars.len() > 0 && chars[chars.len() - 1] == SEPARATOR {
            DirectoryItem::Directory(href)
        } else {
            DirectoryItem::File(href)
        }
    }
}

impl vstd::std_specs::convert::FromSpecImpl<String> for DirectoryItem {
    open spec fn obeys_from_spec() -> bool {
        true
    }

    open spec fn from_spec(href: String) -> DirectoryItem {
        if is_directory_link(href@) {
            DirectoryItem::Directory(href)
        } else {
            DirectoryItem::File(href)
        }
    }
}

impl<'a> From<&'a str> for DirectoryItem {
    /// The entry that the link `href` names.
    fn from(href: &'a str) -> (r: DirectoryItem) {
        DirectoryItem::from(owned(href))
    }
}

impl<'a> vstd::std_specs::convert::FromSpecImpl<&'a str> for DirectoryItem {
    /// Nothing is claimed of this conversion through `from_spec`: see
    /// `from_link`, which states what it gives.
    open spec fn obeys_from_spec() -> bool {
        false
    }

    open spec fn from_spec(href: &'a str) -> DirectoryItem {
        DirectoryItem::File(arbitrary())
    }
}

impl DirectoryItem {
    /// The entry that the link `href` names.
    pub fn from_link(href: &str) -> (r: DirectoryItem)
        ensures
            r.href() == href@,
            r is Directory <==> is_directory_link(href@),
    {
        DirectoryItem::from(owned(href))
    }
}

/// The reader of `quick_xml`, which cuts a text into tags and what stands
/// between them.
#[verifier::external_type_specification]
#[verifier::external_body]
#[verifier::reject_recursive_types(R)]
pub struct ExXmlReader<R>(XmlReader<R>);

/// The error of `quick_xml`'s reader.
#[verifier::external_type_specification]
#[verifier::external_body]
pub struct ExXmlError(XmlError);

/// The error of `quick_xml`'s walk over the attributes of a tag.
#[verifier::external_type_specification]
#[verifier::external_body]
pub struct ExAttrError(AttrError);

/// `quick_xml`'s walk over the attributes of a tag.
#[verifier::external_type_specification]
#[verifier::external_body]
pub struct ExAttributes<'a>(Attributes<'a>);

/// One attribute of a tag, as `quick_xml` gives it.
#[verifier::external_type_specification]
#[verifier::external_body]
pub struct ExAttribute<'a>(Attribute<'a>);

/// Why a listing could not be read to its end.
#[derive(Debug)]
pub enum DirectoryItemError {
    /// The text is no well-formed markup, or a link is wrongly escaped.
    Xml(XmlError),
    /// The attributes of an anchor cannot be told apart.
    Attr(AttrError),
}

impl DirectoryItemError {
    /// The kind of this failure: the listing is malformed.
    pub fn kind(&self) -> (r: FailureKind)
        ensures
            r == FailureKind::FormatFailure,
    {
        FailureKind::FormatFailure
    }
}

/// What the reader found next in a listing.
#[derive(Debug, Clone, PartialEq, Eq)]
pub enum Tag {
    /// The end of the text.
    End,
    /// An opening tag, with its name and the text of its attributes.
    Open { name: String, attributes: String },
    /// A tag that opens and closes at once, with its name and the text of
    /// its attributes.
    Empty { name: String, attributes: String },
    /// Anything else.
    Other,
}

/// What a step of the reader gives, as a mathematical value.
pub enum TagView {
    /// The end of the text.
    End,
    /// An opening tag, with its name and the text of its attributes.
    Open { name: Seq<char>, attributes: Seq<char> },
    /// A tag that opens and closes at once, with its name and the text of
    /// its attributes.
    Empty { name: Seq<char>, attributes: Seq<char> },
    /// Anything else.
    Other,
    /// No tag: the text cannot be read at this place.
    Failed,
}

impl View for Tag {
    type V = TagView;

    open spec fn view(&self) -> TagView {
        match *self {
            Tag::End => TagView::End,
            Tag::Open { name, attributes } => TagView::Open {
                name: name@,
                attributes: attributes@,
            },
            Tag::Empty { name, attributes } => TagView::Empty {
                name: name@,
                attributes: attributes@,
            },
            Tag::Other => TagView::Other,
        }
    }
}

/// One attribute of a tag: its name, and its value as the text writes it.
#[derive(Debug, Clone, PartialEq, Eq)]
pub struct Attr {
    /// The name of the attribute.
    pub key: String,
    /// The value of the attribute, with its escapes as they are written.
    pub value: String,
}

/// What a step of the walk over the attributes of a tag gives, as a
/// mathematical value.
pub enum AttrView {
    /// No attribute is left.
    Done,
    /// An attribute with its name and its value as the text writes it.
    Attr { key: Seq<char>, value: Seq<char> },
    /// No attribute: the text cannot be read at this place.
    Failed,
}

impl Tag {
    /// The text of the attributes of an opening tag, and no text for
    /// anything else.
    pub fn attributes(&self) -> (r: &str)
        ensures
            r@ == match *self {
                Tag::Open { attributes, .. } => attributes@,
                _ => Seq::empty(),
            },
    {
        proof {
            reveal_strlit("");
            assert(""@ =~= Seq::<char>::empty());
        }
        match self {
            Tag::Open { attributes, .. } => attributes.as_str(),
            _ => "",
        }
    }

    /// Whether this is the opening tag of an anchor, which may hold a link.
    pub fn is_anchor(&self) -> (r: bool)
        ensures
            r == (*self matches Tag::Open { name, .. } && name@ == ANCHOR@),
    {
        match self {
            Tag::Open { name, .. } => str_eq(name.as_str(), ANCHOR),
            _ => false,
        }
    }
}

/// Whether `key` is the name of the attribute that holds the target of a
/// link.
pub fn is_href(key: &str) -> (r: bool)
    ensures
        r == (key@ == HREF@),
{
    str_eq(key, HREF)
}

/// The name of the tag that holds a link.
pub const ANCHOR: &'static str = "a";

/// The name of the attribute that holds the target of a link.
pub const HREF: &'static str = "href";

/// What a reader at the start of `text` gives, step by step: the entry at
/// `i` is what its step `i` gives, counted from `0`. After the end of the
/// text every step gives the end again.
pub uninterp spec fn xml_tags(text: Seq<char>) -> Map<int, TagView>;

/// What a reader gives from where it stands, step by step.
pub uninterp spec fn tags_ahead(reader: XmlReader<&[u8]>) -> Map<int, TagView>;

/// What a walk over the attributes in the text `raw` of a tag gives, step
/// by step.
pub uninterp spec fn html_attributes(raw: Seq<char>) -> Map<int, AttrView>;

/// What a walk over attributes gives from where it stands, step by step.
pub uninterp spec fn attributes_ahead(attributes: Attributes) -> Map<int, AttrView>;

/// The value `value` of an attribute with its escapes resolved and each
/// line break or tab made a space, or `None` where an escape in it is
/// wrong.
pub uninterp spec fn normalized_value(value: Seq<char>) -> Option<Seq<char>>;

/// What a step of the reader gave.
pub open spec fn step_view(step: Result<Tag, XmlError>) -> TagView {
    match step {
        Ok(tag) => tag@,
        Err(_) => TagView::Failed,
    }
}

/// What a step of the walk over attributes gave.
pub open spec fn attr_view(step: Option<Result<Attr, AttrError>>) -> AttrView {
    match step {
        None => AttrView::Done,
        Some(Ok(attr)) => AttrView::Attr { key: attr.key@, value: attr.value@ },
        Some(Err(_)) => AttrView::Failed,
    }
}

/// `Reader::from_str`: a reader at the start of `text`.
#[verifier::external_body]
fn reader_of<'a>(text: &'a str) -> (r: XmlReader<&'a [u8]>)
    ensures
        tags_ahead(r) == xml_tags(text@),
{
    XmlReader::from_str(text)
}

/// `Reader::read_event`: what the reader finds next. Of an opening tag, and
/// of a tag that opens and closes at once, the name (`BytesStart::name`)
/// and the text of the attributes (`BytesStart::attributes_raw`) are handed
/// on. The step that is given is the first of those that were ahead, and
/// the others are ahead now.
#[verifier::external_body]
fn read_tag<'a>(reader: &mut XmlReader<&'a [u8]>) -> (r: Result<Tag, XmlError>)
    ensures
        step_view(r) == tags_ahead(*old(reader))[0],
        forall|i: int|
            i >= 0 ==> #[trigger] tags_ahead(*final(reader))[i] == tags_ahead(*old(reader))[i + 1],
{
    match reader.read_event()? {
        Event::Eof => Ok(Tag::End),
        Event::Start(e) => Ok(
            Tag::Open { name: e.name().0.to_owned(), attributes: e.attributes_raw().to_owned() },
        ),
        Event::Empty(e) => Ok(
            Tag::Empty { name: e.name().0.to_owned(), attributes: e.attributes_raw().to_owned() },
        ),
        _ => Ok(Tag::Other),
    }
}

/// `Attributes::html`: a walk over the attributes in `raw`, which need
/// neither quotes nor a value.
#[verifier::external_body]
fn attributes_of<'a>(raw: &'a str) -> (r: Attributes<'a>)
    ensures
        attributes_ahead(r) == html_attributes(raw@),
{
    Attributes::html(raw, 0)
}

/// `Attributes::next`: the next attribute, if one is left, with its fields
/// `key` and `value`. The step that is given is the first of those that
/// were ahead, and the others are ahead now.
#[verifier::external_body]
fn next_attribute<'a>(attributes: &mut Attributes<'a>) -> (r: Option<Result<Attr, AttrError>>)
    ensures
        attr_view(r) == attributes_ahead(*old(attributes))[0],
        forall|i: int|
            i >= 0 ==> #[trigger] attributes_ahead(*final(attributes))[i] == attributes_ahead(
                *old(attributes),
            )[i + 1],
{
    attributes.next().map(
        |step| step.map(|a| Attr { key: a.key.0.to_owned(), value: a.value.into_owned() }),
    )
}

/// `Attribute::normalized_value` on an attribute with the value `value`:
/// the value with its escapes resolved and each line break or tab made a
/// space.
#[verifier::external_body]
fn normalize(value: &str) -> (r: Result<String, XmlError>)
    ensures
        match r {
            Ok(text) => normalized_value(value@) == Some(text@),
            Err(_) => normalized_value(value@) is None,
        },
{
    let attribute = Attribute { key: QName(""), value: Cow::Borrowed(value) };
    attribute.normalized_value(quick_xml::XmlVersion::Implicit1_0).map(|text| text.into_owned())
}

/// The number of bytes that encode `text`, as a `usize` holds it.
pub open spec fn byte_len(text: Seq<char>) -> nat {
    (encode_utf8(text).len() as usize) as nat
}

/// What the search for the link of an anchor gives.
pub enum HrefView {
    /// The anchor has no link.
    Missing,
    /// The target of the link.
    Found(Seq<char>),
    /// The attributes cannot be told apart.
    FailedAttribute,
    /// The link is wrongly escaped.
    FailedValue,
}

/// The link among the attributes `attrs` from step `from` on: the value,
/// normalized, of the first attribute named `href`, where no step before it
/// failed. No more than `fuel` attributes are passed over.
pub open spec fn href_among(attrs: Map<int, AttrView>, from: int, fuel: nat) -> HrefView
    decreases fuel,
{
    match attrs[from] {
        AttrView::Done => HrefView::Missing,
        AttrView::Failed => HrefView::FailedAttribute,
        AttrView::Attr { key, value } => if key == HREF@ {
            match normalized_value(value) {
                Some(link) => HrefView::Found(link),
                None => HrefView::FailedValue,
            }
        } else if fuel == 0 {
            HrefView::Missing
        } else {
            href_among(attrs, from + 1, (fuel - 1) as nat)
        },
    }
}

/// The link of an anchor whose attributes are written `raw`. Every
/// attribute takes up at least one byte, so no more attributes are passed
/// over than `raw` has bytes.
pub open spec fn href_of(raw: Seq<char>) -> HrefView {
    href_among(html_attributes(raw), 0, byte_len(raw))
}

/// What a search for a link gave.
pub open spec fn href_view(found: Result<Option<String>, DirectoryItemError>) -> HrefView {
    match found {
        Ok(None) => HrefView::Missing,
        Ok(Some(link)) => HrefView::Found(link@),
        Err(DirectoryItemError::Attr(_)) => HrefView::FailedAttribute,
        Err(DirectoryItemError::Xml(_)) => HrefView::FailedValue,
    }
}

/// The target of the link of an anchor with the attributes `raw`: the
/// value of its first `href`. `None` where it has none.
fn find_href(raw: &str) -> (r: Result<Option<String>, DirectoryItemError>)
    ensures
        href_view(r) == href_of(raw@),
{
    let mut attributes = attributes_of(raw);
    let mut left: usize = raw.len();
    let ghost all = html_attributes(raw@);
    let ghost mut at: int = 0;
    loop
        invariant
            at >= 0,
            all == html_attributes(raw@),
            forall|k: int| k >= 0 ==> #[trigger] attributes_ahead(attributes)[k] == all[at + k],
            href_among(all, at, left as nat) == href_of(raw@),
        decreases left,
    {
        let ghost before = attributes_ahead(attributes);
        let step = next_attribute(&mut attributes);
        proof {
            assert(before[0] == all[at + 0]);
            assert forall|k: int| k >= 0 implies #[trigger] attributes_ahead(attributes)[k]
                == all[at + 1 + k] by {
                assert(before[k + 1] == all[at + (k + 1)]);
            }
        }
        match step {
            None => {
                return Ok(None);
            },
            Some(Err(e)) => {
                return Err(DirectoryItemError::Attr(e));
            },
            Some(Ok(attribute)) => {
                if is_href(attribute.key.as_str()) {
                    return match normalize(attribute.value.as_str()) {
                        Ok(value) => Ok(Some(value)),
                        Err(e) => Err(DirectoryItemError::Xml(e)),
                    };
                }
            },
        }
        if left == 0 {
            return Ok(None);
        }
        left = left - 1;
        proof {
            at = at + 1;
        }
    }
}

/// Every entry is what its own link makes it: a directory where the link
/// ends in a separator, a file otherwise.
pub open spec fn well_classified(items: Seq<DirectoryItem>) -> bool {
    forall|i: int|
        0 <= i < items.len() ==> ((#[trigger] items[i]) is Directory <==> is_directory_link(
            items[i].href(),
        ))
}

/// The links of a sequence of entries.
pub open spec fn links_of(items: Seq<DirectoryItem>) -> Seq<Seq<char>> {
    Seq::new(items.len(), |i: int| items[i].href())
}

/// How the reading of a listing ended.
pub enum ListingEnd {
    /// At the end of the page.
    Complete,
    /// At markup that cannot be read, or at a link that is wrongly escaped.
    FailedMarkup,
    /// At an anchor whose attributes cannot be told apart.
    FailedAttributes,
}

/// A listing as a mathematical value: the links that were read, in the
/// order of the page, and how the reading ended.
pub struct ListingView {
    pub links: Seq<Seq<char>>,
    pub end: ListingEnd,
}

/// The listing that the steps `tags` give from step `from` on, after the
/// links `links`: the link of every opening `a` tag that has one is added,
/// everything else is passed over, a tag that opens and closes at once
/// too, whatever its name, and the reading ends at the end of the
/// text or at the first step that fails. No more than `fuel` steps are gone
/// beyond `from`.
pub open spec fn listing_among(
    tags: Map<int, TagView>,
    from: int,
    fuel: nat,
    links: Seq<Seq<char>>,
) -> ListingView
    decreases fuel,
{
    match tags[from] {
        TagView::End => ListingView { links, end: ListingEnd::Complete },
        TagView::Failed => ListingView { links, end: ListingEnd::FailedMarkup },
        TagView::Open { name, attributes } => if name == ANCHOR@ {
            match href_of(attributes) {
                HrefView::FailedAttribute => ListingView {
                    links,
                    end: ListingEnd::FailedAttributes,
                },
                HrefView::FailedValue => ListingView { links, end: ListingEnd::FailedMarkup },
                HrefView::Found(link) => listing_beyond(tags, from, fuel, links.push(link)),
                HrefView::Missing => listing_beyond(tags, from, fuel, links),
            }
        } else {
            listing_beyond(tags, from, fuel, links)
        },
        TagView::Empty { .. } => listing_beyond(tags, from, fuel, links),
        TagView::Other => listing_beyond(tags, from, fuel, links),
    }
}

/// The listing that the steps `tags` give beyond step `from`, after the
/// links `links`.
pub open spec fn listing_beyond(
    tags: Map<int, TagView>,
    from: int,
    fuel: nat,
    links: Seq<Seq<char>>,
) -> ListingView
    decreases fuel, 0nat,
{
    if fuel == 0 {
        ListingView { links, end: ListingEnd::Complete }
    } else {
        listing_among(tags, from + 1, (fuel - 1) as nat, links)
    }
}

/// The listing that the page `text` holds. Every tag, and every text
/// between two tags, takes up at least one byte, so no more steps are gone
/// than the page has bytes, and one.
pub open spec fn listing_of(text: Seq<char>) -> ListingView {
    listing_among(xml_tags(text), 0, byte_len(text), Seq::empty())
}

/// The entries of a directory listing: the links of its anchors, in the
/// order of the page, up to the end of the page or to the first place where
/// the page cannot be read.
#[derive(Debug)]
pub struct DirectoryItems {
    items: Vec<DirectoryItem>,
    error: Option<DirectoryItemError>,
}

impl DirectoryItems {
    /// The entries that were read.
    pub closed spec fn entries(&self) -> Seq<DirectoryItem> {
        self.items@
    }

    /// How the reading ended.
    pub closed spec fn end(&self) -> ListingEnd {
        match self.error {
            None => ListingEnd::Complete,
            Some(DirectoryItemError::Xml(_)) => ListingEnd::FailedMarkup,
            Some(DirectoryItemError::Attr(_)) => ListingEnd::FailedAttributes,
        }
    }

    /// Whether the page was read to its end.
    pub open spec fn complete(&self) -> bool {
        self.end() is Complete
    }

    /// Every listing holds each link as what the link makes it.
    #[verifier::type_invariant]
    pub closed spec fn wf(&self) -> bool {
        well_classified(self.items@)
    }

    /// Reads the listing page `s`. The page is taken as a run of tags: the
    /// `href` of every opening `a` tag is an entry, and all other markup is
    /// passed over.
    pub fn from_str(s: &str) -> (r: Self)
        ensures
            links_of(r.entries()) == listing_of(s@).links,
            r.end() == listing_of(s@).end,
            well_classified(r.entries()),
    {
        let mut reader = reader_of(s);
        let mut items: Vec<DirectoryItem> = Vec::new();
        let mut left: usize = s.len();
        let ghost all = xml_tags(s@);
        let ghost mut at: int = 0;
        proof {
            assert(links_of(items@) =~= Seq::<Seq<char>>::empty());
        }
        loop
            invariant
                at >= 0,
                all == xml_tags(s@),
                forall|k: int| k >= 0 ==> #[trigger] tags_ahead(reader)[k] == all[at + k],
                listing_among(all, at, left as nat, links_of(items@)) == listing_of(s@),
                well_classified(items@),
            decreases left,
        {
            let ghost before = tags_ahead(reader);
            let step = read_tag(&mut reader);
            proof {
                assert(before[0] == all[at + 0]);
                assert forall|k: int| k >= 0 implies #[trigger] tags_ahead(reader)[k] == all[at
                    + 1 + k] by {
                    assert(before[k + 1] == all[at + (k + 1)]);
                }
            }
            match step {
                Err(e) => {
                    return DirectoryItems { items, error: Some(DirectoryItemError::Xml(e)) };
                },
                Ok(Tag::End) => {
                    return DirectoryItems { items, error: None };
                },
                Ok(tag) => {
                    if tag.is_anchor() {
                        match find_href(tag.attributes()) {
                            Err(e) => {
                                return DirectoryItems { items, error: Some(e) };
                            },
                            Ok(Some(href)) => {
                                let ghost links = links_of(items@);
                                let item = DirectoryItem::from(href);
                                items.push(item);
                                proof {
                                    assert(links_of(items@) =~= links.push(href@));
                                }
                            },
                            Ok(None) => {},
                        }
                    }
                },
            }
            if left == 0 {
                return DirectoryItems { items, error: None };
            }
            left = left - 1;
            proof {
                at = at + 1;
            }
        }
    }

    /// The entries that were read, whether or not the page was read to its
    /// end.
    pub fn items(&self) -> (r: &Vec<DirectoryItem>)
        ensures
            r@ == self.entries(),
            well_classified(r@),
    {
        proof {
            use_type_invariant(self);
        }
        &self.items
    }

    /// The entries of the page, or why it could not be read to its end.
    pub fn collect(self) -> (r: Result<Vec<DirectoryItem>, DirectoryItemError>)
        ensures
            r is Ok <==> self.complete(),
            r matches Ok(items) ==> items@ == self.entries() && well_classified(items@),
    {
        proof {
            use_type_invariant(&self);
        }
        match self.error {
            Some(e) => Err(e),
            None => Ok(self.items),
        }
    }
}

/// The entries of a listing page that is held as a `String`.
#[derive(Debug)]
pub struct OwnedDirectoryItems {
    inner: DirectoryItems,
}

impl OwnedDirectoryItems {
    /// The entries that were read.
    pub closed spec fn entries(&self) -> Seq<DirectoryItem> {
        self.inner.entries()
    }

    /// How the reading ended.
    pub closed spec fn end(&self) -> ListingEnd {
        self.inner.end()
    }

    /// Whether the page was read to its end.
    pub open spec fn complete(&self) -> bool {
        self.end() is Complete
    }

    /// Reads the listing page `s`, as `DirectoryItems::from_str` does.
    pub fn new(s: String) -> (r: Self)
        ensures
            links_of(r.entries()) == listing_of(s@).links,
            r.end() == listing_of(s@).end,
            well_classified(r.entries()),
    {
        OwnedDirectoryItems { inner: DirectoryItems::from_str(s.as_str()) }
    }

    /// The entries that were read, whether or not the page was read to its
    /// end.
    pub fn items(&self) -> (r: &Vec<DirectoryItem>)
        ensures
            r@ == self.entries(),
            well_classified(r@),
    {
        self.inner.items()
    }

    /// The entries of the page, or why it could not be read to its end.
    pub fn collect(self) -> (r: Result<Vec<DirectoryItem>, DirectoryItemError>)
        ensures
            r is Ok <==> self.complete(),
            r matches Ok(items) ==> items@ == self.entries() && well_classified(items@),
    {
        self.inner.collect()
    }
}

} // verus!
