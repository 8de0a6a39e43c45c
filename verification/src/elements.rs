//! The element data model: block-level and inline-level constructs of the
//! markup dialect, each normally paired with the source region it was
//! parsed from.

use vstd::prelude::*;
use crate::location::{Located, Region};

verus! {

// ---------------------------------------------------------------------------
// Inline elements
// ---------------------------------------------------------------------------

/// A fixed vocabulary of highlighted words.
#[allow(non_camel_case_types)]
#[derive(Clone, Copy, Debug, PartialEq, Eq, Structural)]
pub enum Keyword {
    TODO,
    DONE,
    STARTED,
    FIXME,
    FIXED,
    XXX,
}

/// Inline mathematics, kept as raw text.
#[derive(Clone, Debug, PartialEq, Eq)]
pub struct MathInline {
    pub formula: String,
}

impl MathInline {
    pub fn new(formula: String) -> (r: MathInline)
        ensures
            r.formula == formula,
    {
        MathInline { formula }
    }
}

/// A colon-delimited sequence of tag words, as in `:tag1:tag2:`.
#[derive(Clone, Debug, PartialEq, Eq)]
pub struct Tags {
    pub values: Vec<String>,
}

impl Tags {
    pub fn new(values: Vec<String>) -> (r: Tags)
        ensures
            r.values == values,
    {
        Tags { values }
    }
}

/// The human-readable text attached to a link.
#[derive(Clone, Debug, PartialEq, Eq)]
pub struct Description {
    pub text: String,
}

impl Description {
    pub fn new(text: String) -> (r: Description)
        ensures
            r.text == text,
    {
        Description { text }
    }
}

/// A calendar date, held as plain year, month and day numbers.
#[derive(Clone, Copy, Debug, PartialEq, Eq, Structural)]
pub struct Date {
    pub year: i32,
    pub month: u8,
    pub day: u8,
}

impl Date {
    /// Months and days are 1-indexed; days are not checked against the
    /// month's actual length.
    pub open spec fn wf(self) -> bool {
        1 <= self.month <= 12 && 1 <= self.day <= 31
    }

    pub fn new(year: i32, month: u8, day: u8) -> (r: Date)
        requires
            1 <= month <= 12,
            1 <= day <= 31,
        ensures
            r.year == year && r.month == month && r.day == day,
            r.wf(),
    {
        Date { year, month, day }
    }
}

/// A link to another page of the same wiki: a path, an optional anchor
/// within the target page, and an optional description.
#[derive(Clone, Debug, PartialEq, Eq)]
pub struct WikiLink {
    pub path: String,
    pub anchor: Option<String>,
    pub description: Option<Description>,
}

impl WikiLink {
    pub fn new(path: String, anchor: Option<String>, description: Option<Description>)
        -> (r: WikiLink)
        ensures
            r.path == path && r.anchor == anchor && r.description == description,
    {
        WikiLink { path, anchor, description }
    }
}

/// A wiki link that targets another wiki, selected by its index in the
/// wiki list.
#[derive(Clone, Debug, PartialEq, Eq)]
pub struct IndexedInterWikiLink {
    pub index: u32,
    pub link: WikiLink,
}

impl IndexedInterWikiLink {
    pub fn new(index: u32, link: WikiLink) -> (r: IndexedInterWikiLink)
        ensures
            r.index == index && r.link == link,
    {
        IndexedInterWikiLink { index, link }
    }
}

/// A wiki link that targets another wiki, selected by name.
#[derive(Clone, Debug, PartialEq, Eq)]
pub struct NamedInterWikiLink {
    pub name: String,
    pub link: WikiLink,
}

impl NamedInterWikiLink {
    pub fn new(name: String, link: WikiLink) -> (r: NamedInterWikiLink)
        ensures
            r.name == name && r.link == link,
    {
        NamedInterWikiLink { name, link }
    }
}

#[derive(Clone, Debug, PartialEq, Eq)]
pub enum InterWikiLink {
    Indexed(IndexedInterWikiLink),
    Named(NamedInterWikiLink),
}

/// A link into the diary area of the wiki, addressed by date.
#[derive(Clone, Debug, PartialEq, Eq)]
pub struct DiaryLink {
    pub date: Date,
    pub anchor: Option<String>,
    pub description: Option<Description>,
}

impl DiaryLink {
    pub fn new(date: Date, anchor: Option<String>, description: Option<Description>)
        -> (r: DiaryLink)
        ensures
            r.date == date && r.anchor == anchor && r.description == description,
    {
        DiaryLink { date, anchor, description }
    }
}

/// How an external file link names its target.
#[derive(Clone, Copy, Debug, PartialEq, Eq, Structural)]
pub enum ExternalFileLinkScheme {
    Local,
    File,
    Absolute,
}

/// A link to a file outside the wiki, written with one of the scheme
/// prefixes `local:`, `file:` or `//`.
#[derive(Clone, Debug, PartialEq, Eq)]
pub struct ExternalFileLink {
    pub scheme: ExternalFileLinkScheme,
    pub path: String,
    pub description: Option<Description>,
}

impl ExternalFileLink {
    pub fn new(scheme: ExternalFileLinkScheme, path: String, description: Option<Description>)
        -> (r: ExternalFileLink)
        ensures
            r.scheme == scheme && r.path == path && r.description == description,
    {
        ExternalFileLink { scheme, path, description }
    }
}

/// A bare URI written directly in the text.
#[derive(Clone, Debug, PartialEq, Eq)]
pub struct RawLink {
    pub uri: String,
}

impl RawLink {
    pub fn new(uri: String) -> (r: RawLink)
        ensures
            r.uri == uri,
    {
        RawLink { uri }
    }
}

/// A transclusion, written `{{uri|description|key="value"}}`: the target
/// is embedded rather than linked.
#[derive(Clone, Debug, PartialEq, Eq)]
pub struct TransclusionLink {
    pub uri: String,
    pub description: Option<Description>,
    pub properties: Vec<(String, String)>,
}

impl TransclusionLink {
    pub fn new(uri: String, description: Option<Description>, properties: Vec<(String, String)>)
        -> (r: TransclusionLink)
        ensures
            r.uri == uri && r.description == description && r.properties == properties,
    {
        TransclusionLink { uri, description, properties }
    }
}

#[derive(Clone, Debug, PartialEq, Eq)]
pub enum Link {
    Wiki(WikiLink),
    InterWiki(InterWikiLink),
    Diary(DiaryLink),
    ExternalFile(ExternalFileLink),
    Raw(RawLink),
    Transclusion(TransclusionLink),
}

/// The decoration a decorated run of text carries.
#[derive(Clone, Copy, Debug, PartialEq, Eq, Structural)]
pub enum Decoration {
    Bold,
    Italic,
    Underline,
    Strikethrough,
    Superscript,
    Subscript,
}

/// What may appear inside a decorated run: the recursive case lets runs
/// nest further decorated runs.
#[derive(Debug, PartialEq, Eq)]
pub enum DecoratedTextContent {
    Text(String),
    DecoratedText(DecoratedText),
    Keyword(Keyword),
    Link(Link),
}

/// A run of inline content wrapped in decoration delimiters.
#[derive(Debug, PartialEq, Eq)]
pub struct DecoratedText {
    pub contents: Vec<Located<DecoratedTextContent>>,
    pub decoration: Decoration,
}

impl DecoratedText {
    pub fn new(contents: Vec<Located<DecoratedTextContent>>, decoration: Decoration)
        -> (r: DecoratedText)
        ensures
            r.contents == contents && r.decoration == decoration,
    {
        DecoratedText { contents, decoration }
    }

    pub fn as_contents(&self) -> (r: &Vec<Located<DecoratedTextContent>>)
        ensures
            r == &self.contents,
    {
        &self.contents
    }
}

/// An inline construct, always scoped to a single source line.
#[derive(Clone, Debug, PartialEq, Eq)]
pub enum InlineElement {
    Text(String),
    DecoratedText(DecoratedText),
    Keyword(Keyword),
    Link(Link),
    Tags(Tags),
    Math(MathInline),
}

/// An ordered run of inline elements.
#[derive(Clone, Debug, PartialEq, Eq)]
pub struct InlineElementContainer {
    pub elements: Vec<Located<InlineElement>>,
}

impl InlineElementContainer {
    pub fn new(elements: Vec<Located<InlineElement>>) -> (r: InlineElementContainer)
        ensures
            r.elements == elements,
    {
        InlineElementContainer { elements }
    }
}

// ---------------------------------------------------------------------------
// Block elements
// ---------------------------------------------------------------------------

/// A section header: `= text =` with one `=` per level, centered when the
/// line is indented.
#[derive(Clone, Debug, PartialEq, Eq)]
pub struct Header {
    pub level: usize,
    pub content: InlineElementContainer,
    pub centered: bool,
}

impl Header {
    pub fn new(level: usize, content: InlineElementContainer, centered: bool) -> (r: Header)
        ensures
            r.level == level && r.content == content && r.centered == centered,
    {
        Header { level, content, centered }
    }
}

/// A run of plain lines holding inline content.
#[derive(Clone, Debug, PartialEq, Eq)]
pub struct Paragraph {
    pub content: InlineElementContainer,
}

impl Paragraph {
    pub fn new(content: InlineElementContainer) -> (r: Paragraph)
        ensures
            r.content == content,
    {
        Paragraph { content }
    }
}

/// The marker glyph of an unordered list item.
#[derive(Clone, Copy, Debug, PartialEq, Eq, Structural)]
pub enum UnorderedListItemType {
    Hyphen,
    Asterisk,
}

/// The numbering style of an ordered list item.
#[derive(Clone, Copy, Debug, PartialEq, Eq, Structural)]
pub enum OrderedListItemType {
    Number,
    LowercaseAlphabet,
    UppercaseAlphabet,
    LowercaseRoman,
    UppercaseRoman,
}

#[derive(Clone, Copy, Debug, PartialEq, Eq, Structural)]
pub enum ListItemType {
    Ordered(OrderedListItemType),
    Unordered(UnorderedListItemType),
}

/// What follows an ordered item's marker: a period, a closing parenthesis,
/// or nothing (the only choice for unordered markers).
#[derive(Clone, Copy, Debug, PartialEq, Eq, Structural)]
pub enum ListItemSuffix {
    Period,
    Paren,
    NoSuffix,
}

/// The completion state written in a `[ ]`-style checkbox.
#[derive(Clone, Copy, Debug, PartialEq, Eq, Structural)]
pub enum TodoStatus {
    Incomplete,
    PartiallyComplete1,
    PartiallyComplete2,
    PartiallyComplete3,
    Complete,
    Rejected,
}

/// Item-level attributes that decorate a list item beyond its marker.
#[derive(Clone, Copy, Debug, PartialEq, Eq, Structural)]
pub struct ListItemAttributes {
    pub todo_status: Option<TodoStatus>,
}

impl Default for ListItemAttributes {
    /// No attributes at all.
    fn default() -> (r: ListItemAttributes)
        ensures
            r.todo_status is None,
    {
        ListItemAttributes { todo_status: None }
    }
}

/// One piece of a list item's content: either inline content or a nested
/// sublist, the recursive case.
#[derive(Debug, PartialEq, Eq)]
pub enum ListItemContent {
    InlineContent(InlineElementContainer),
    List(List),
}

/// The ordered collection of content pieces under one list item.
#[derive(Debug, PartialEq, Eq)]
pub struct ListItemContents {
    pub contents: Vec<Located<ListItemContent>>,
}

impl ListItemContents {
    pub fn new(contents: Vec<Located<ListItemContent>>) -> (r: ListItemContents)
        ensures
            r.contents == contents,
    {
        ListItemContents { contents }
    }
}

/// A single list item: marker type, marker suffix, indentation depth
/// (the count of leading whitespace characters), and its contents.
#[derive(Debug, PartialEq, Eq)]
pub struct ListItem {
    pub item_type: ListItemType,
    pub suffix: ListItemSuffix,
    pub depth: usize,
    pub contents: ListItemContents,
}

impl ListItem {
    pub fn new(
        item_type: ListItemType,
        suffix: ListItemSuffix,
        depth: usize,
        contents: ListItemContents,
    ) -> (r: ListItem)
        ensures
            r.item_type == item_type && r.suffix == suffix,
            r.depth == depth && r.contents == contents,
    {
        ListItem { item_type, suffix, depth, contents }
    }
}

/// A list item together with its attributes.
#[derive(Debug, PartialEq, Eq)]
pub struct EnhancedListItem {
    pub item: ListItem,
    pub attributes: ListItemAttributes,
}

impl EnhancedListItem {
    pub fn new(item: ListItem, attributes: ListItemAttributes) -> (r: EnhancedListItem)
        ensures
            r.item == item && r.attributes == attributes,
    {
        EnhancedListItem { item, attributes }
    }
}

/// A regular list comprised of individual items.
#[derive(Debug, PartialEq, Eq)]
pub struct List {
    pub items: Vec<Located<EnhancedListItem>>,
}

impl List {
    pub fn new(items: Vec<Located<EnhancedListItem>>) -> (r: List)
        ensures
            r.items == items,
    {
        List { items }
    }
}

/// The span marker a table cell may hold in place of content.
#[derive(Clone, Copy, Debug, PartialEq, Eq, Structural)]
pub enum CellSpan {
    FromLeft,
    FromAbove,
}

/// One table cell: inline content, a span marker, or nothing.
#[derive(Clone, Debug, PartialEq, Eq)]
pub enum Cell {
    Content(InlineElementContainer),
    Span(CellSpan),
    Empty,
}

/// One table row: a row of cells, or a divider row drawn with hyphens.
#[derive(Clone, Debug, PartialEq, Eq)]
pub enum Row {
    Content { cells: Vec<Located<Cell>> },
    Divider,
}

/// A pipe-delimited table; centered when its rows are indented.
#[derive(Clone, Debug, PartialEq, Eq)]
pub struct Table {
    pub rows: Vec<Located<Row>>,
    pub centered: bool,
}

impl Table {
    pub fn new(rows: Vec<Located<Row>>, centered: bool) -> (r: Table)
        ensures
            r.rows == rows && r.centered == centered,
    {
        Table { rows, centered }
    }
}

/// A preformatted code block: `{{{lang key=value` ... `}}}`, lines kept raw.
#[derive(Clone, Debug, PartialEq, Eq)]
pub struct PreformattedText {
    pub lang: Option<String>,
    pub metadata: Vec<(String, String)>,
    pub lines: Vec<String>,
}

impl PreformattedText {
    pub fn new(lang: Option<String>, metadata: Vec<(String, String)>, lines: Vec<String>)
        -> (r: PreformattedText)
        ensures
            r.lang == lang && r.metadata == metadata && r.lines == lines,
    {
        PreformattedText { lang, metadata, lines }
    }
}

/// A block of mathematics: `{{$` ... `}}$`, with an optional
/// `%environment%` name on the opening line.
#[derive(Clone, Debug, PartialEq, Eq)]
pub struct MathBlock {
    pub lines: Vec<String>,
    pub environment: Option<String>,
}

impl MathBlock {
    pub fn new(lines: Vec<String>, environment: Option<String>) -> (r: MathBlock)
        ensures
            r.lines == lines && r.environment == environment,
    {
        MathBlock { lines, environment }
    }
}

/// A quoted block, kept as its raw lines; empty lines inside separate
/// line groups.
#[derive(Clone, Debug, PartialEq, Eq)]
pub struct Blockquote {
    pub lines: Vec<String>,
}

impl Blockquote {
    pub fn new(lines: Vec<String>) -> (r: Blockquote)
        ensures
            r.lines == lines,
    {
        Blockquote { lines }
    }
}

/// A horizontal divider, drawn as a line of four or more hyphens.
#[derive(Clone, Copy, Debug, PartialEq, Eq, Structural)]
pub struct Divider;

/// A directive line such as `%title text` carrying page metadata.
#[derive(Clone, Debug, PartialEq, Eq)]
pub enum Placeholder {
    Title(String),
    Date(Date),
    Template(String),
    NoHtml,
    Other { name: String, value: String },
}

/// A term of a definition list, holding inline content.
#[derive(Clone, Debug, PartialEq, Eq)]
pub struct Term {
    pub content: InlineElementContainer,
}

impl Term {
    pub fn new(content: InlineElementContainer) -> (r: Term)
        ensures
            r.content == content,
    {
        Term { content }
    }
}

/// A definition attached to a term, holding inline content.
#[derive(Clone, Debug, PartialEq, Eq)]
pub struct Definition {
    pub content: InlineElementContainer,
}

impl Definition {
    pub fn new(content: InlineElementContainer) -> (r: Definition)
        ensures
            r.content == content,
    {
        Definition { content }
    }
}

/// A term together with the definitions accumulated under it.
#[derive(Clone, Debug, PartialEq, Eq)]
pub struct TermAndDefinitions {
    pub term: Located<Term>,
    pub definitions: Vec<Located<Definition>>,
}

impl TermAndDefinitions {
    pub fn new(term: Located<Term>, definitions: Vec<Located<Definition>>)
        -> (r: TermAndDefinitions)
        ensures
            r.term == term && r.definitions == definitions,
    {
        TermAndDefinitions { term, definitions }
    }
}

/// A definition list: ordered term/definitions pairs.
#[derive(Clone, Debug, PartialEq, Eq)]
pub struct DefinitionList {
    pub entries: Vec<TermAndDefinitions>,
}

impl DefinitionList {
    pub fn new(entries: Vec<TermAndDefinitions>) -> (r: DefinitionList)
        ensures
            r.entries == entries,
    {
        DefinitionList { entries }
    }
}

/// A block-level construct, spanning one or more whole lines.
#[derive(Clone, Debug, PartialEq, Eq)]
pub enum BlockElement {
    Header(Header),
    Paragraph(Paragraph),
    List(List),
    Table(Table),
    Preformatted(PreformattedText),
    Math(MathBlock),
    Blockquote(Blockquote),
    Divider(Divider),
    Tags(Tags),
    DefinitionList(DefinitionList),
    Placeholder(Placeholder),
    EmptyLine,
    UnrecognizedLine(String),
}

// ---------------------------------------------------------------------------
// Comments and the page
// ---------------------------------------------------------------------------

/// A single-line comment: `%%` followed by the rest of the line.
#[derive(Clone, Debug, PartialEq, Eq)]
pub struct LineComment {
    pub text: String,
}

impl LineComment {
    pub fn new(text: String) -> (r: LineComment)
        ensures
            r.text == text,
    {
        LineComment { text }
    }
}

/// A comment spanning lines, from `%%+` to `+%%`.
#[derive(Clone, Debug, PartialEq, Eq)]
pub struct MultiLineComment {
    pub lines: Vec<String>,
}

impl MultiLineComment {
    pub fn new(lines: Vec<String>) -> (r: MultiLineComment)
        ensures
            r.lines == lines,
    {
        MultiLineComment { lines }
    }
}

#[derive(Clone, Debug, PartialEq, Eq)]
pub enum Comment {
    Line(LineComment),
    MultiLine(MultiLineComment),
}

/// A whole parsed document: its block elements in source order and the
/// comments collected alongside them.
#[derive(Clone, Debug, PartialEq, Eq)]
pub struct Page {
    pub elements: Vec<Located<BlockElement>>,
    pub comments: Vec<Located<Comment>>,
}

impl Page {
    pub fn new(elements: Vec<Located<BlockElement>>, comments: Vec<Located<Comment>>) -> (r: Page)
        ensures
            r.elements == elements && r.comments == comments,
    {
        Page { elements, comments }
    }
}

// ---------------------------------------------------------------------------
// Clone for the recursive types
// ---------------------------------------------------------------------------
// `derive` cannot supply these: the recursion needs an explicit termination
// measure.

impl Clone for DecoratedTextContent {
    fn clone(&self) -> Self
        decreases *self,
    {
        match self {
            DecoratedTextContent::Text(s) => DecoratedTextContent::Text(s.clone()),
            DecoratedTextContent::DecoratedText(d) => DecoratedTextContent::DecoratedText(
                d.clone(),
            ),
            DecoratedTextContent::Keyword(k) => DecoratedTextContent::Keyword(*k),
            DecoratedTextContent::Link(l) => DecoratedTextContent::Link(l.clone()),
        }
    }
}

impl Clone for DecoratedText {
    fn clone(&self) -> Self
        decreases *self,
    {
        let mut contents: Vec<Located<DecoratedTextContent>> = Vec::new();
        let mut i: usize = 0;
        while i < self.contents.len()
            decreases self.contents.len() - i,
        {
            let c = &self.contents[i];
            proof {
                assert(decreases_to!(*self => self.contents@[i as int].element));
            }
            contents.push(Located { element: c.element.clone(), region: c.region });
            i += 1;
        }
        DecoratedText { contents, decoration: self.decoration }
    }
}

impl Clone for ListItemContent {
    fn clone(&self) -> Self
        decreases *self,
    {
        match self {
            ListItemContent::InlineContent(c) => ListItemContent::InlineContent(c.clone()),
            ListItemContent::List(l) => ListItemContent::List(l.clone()),
        }
    }
}

impl Clone for ListItemContents {
    fn clone(&self) -> Self
        decreases *self,
    {
        let mut contents: Vec<Located<ListItemContent>> = Vec::new();
        let mut i: usize = 0;
        while i < self.contents.len()
            decreases self.contents.len() - i,
        {
            let c = &self.contents[i];
            proof {
                assert(decreases_to!(*self => self.contents@[i as int].element));
            }
            contents.push(Located { element: c.element.clone(), region: c.region });
            i += 1;
        }
        ListItemContents { contents }
    }
}

impl Clone for ListItem {
    fn clone(&self) -> Self
        decreases *self,
    {
        ListItem {
            item_type: self.item_type,
            suffix: self.suffix,
            depth: self.depth,
            contents: self.contents.clone(),
        }
    }
}

impl Clone for EnhancedListItem {
    fn clone(&self) -> Self
        decreases *self,
    {
        EnhancedListItem { item: self.item.clone(), attributes: self.attributes }
    }
}

impl Clone for List {
    fn clone(&self) -> Self
        decreases *self,
    {
        let mut items: Vec<Located<EnhancedListItem>> = Vec::new();
        let mut i: usize = 0;
        while i < self.items.len()
            decreases self.items.len() - i,
        {
            let c = &self.items[i];
            proof {
                assert(decreases_to!(*self => self.items@[i as int].element));
            }
            items.push(Located { element: c.element.clone(), region: c.region });
            i += 1;
        }
        List { items }
    }
}

// ---------------------------------------------------------------------------
// List normalization
// ---------------------------------------------------------------------------

impl List {
    /// The list with every item's marker type rewritten to the first
    /// item's type. Suffixes, depths, contents and attributes are kept.
    pub open spec fn spec_normalized(items: Seq<Located<EnhancedListItem>>) -> Seq<
        Located<EnhancedListItem>,
    > {
        if items.len() == 0 {
            items
        } else {
            let t = items[0].element.item.item_type;
            items.map_values(
                |it: Located<EnhancedListItem>|
                    Located {
                        element: EnhancedListItem {
                            item: ListItem {
                                item_type: t,
                                suffix: it.element.item.suffix,
                                depth: it.element.item.depth,
                                contents: it.element.item.contents,
                            },
                            attributes: it.element.attributes,
                        },
                        region: it.region,
                    },
            )
        }
    }

    /// Normalizes the list by standardizing the item marker types based
    /// on the first list item. Sublists are not normalized; a list whose
    /// first item reads as a roman numeral keeps that reading even when
    /// later items are plainly alphabetic.
    pub fn normalize(&mut self)
        ensures
            final(self).items@ == Self::spec_normalized(old(self).items@),
    {
        let n = self.items.len();
        if n == 0 {
            return;
        }
        let t = self.items[0].element.item.item_type;
        let mut out: Vec<Located<EnhancedListItem>> = Vec::new();
        let ghost orig = self.items@;
        while self.items.len() > 0
            invariant
                orig.len() > 0,
                t == orig[0].element.item.item_type,
                self.items@ == orig.skip(out@.len() as int),
                out@.len() <= orig.len(),
                out@ == Self::spec_normalized(orig).take(out@.len() as int),
            decreases self.items@.len(),
        {
            let ghost done = out@.len() as int;
            let it = self.items.remove(0);
            let mut it2 = it;
            it2.element.item.item_type = t;
            out.push(it2);
            proof {
                assert(orig.skip(done)[0] == orig[done]);
                assert(self.items@ =~= orig.skip(done + 1));
                assert(out@ =~= Self::spec_normalized(orig).take(done + 1));
            }
        }
        proof {
            assert(out@ =~= Self::spec_normalized(orig));
        }
        self.items = out;
    }
}

/// Law: normalization is idempotent. Normalizing an already-normalized
/// item sequence changes nothing, so applying the pass twice equals
/// applying it once.
pub proof fn lemma_normalize_idempotent(items: Seq<Located<EnhancedListItem>>)
    ensures
        List::spec_normalized(List::spec_normalized(items)) == List::spec_normalized(items),
{
    if items.len() > 0 {
        let once = List::spec_normalized(items);
        assert(List::spec_normalized(once) =~= once);
    }
}

// ---------------------------------------------------------------------------
// Blockquote line groups
// ---------------------------------------------------------------------------

/// The views of a sequence of strings.
pub open spec fn line_views(ls: Seq<String>) -> Seq<Seq<char>> {
    ls.map_values(|s: String| s@)
}

impl Blockquote {
    /// The line groups of `lines[k..]`, with `cur` the group gathered so
    /// far: empty lines separate groups, and empty groups are dropped.
    pub open spec fn spec_groups(lines: Seq<String>, k: int, cur: Seq<String>) -> Seq<
        Seq<String>,
    >
        decreases lines.len() - k,
    {
        if k < 0 || k >= lines.len() {
            if cur.len() == 0 {
                Seq::empty()
            } else {
                seq![cur]
            }
        } else if lines[k]@.len() == 0 {
            (if cur.len() == 0 {
                Seq::<Seq<String>>::empty()
            } else {
                seq![cur]
            }) + Self::spec_groups(lines, k + 1, Seq::empty())
        } else {
            Self::spec_groups(lines, k + 1, cur.push(lines[k]))
        }
    }

    /// Returns the groups of consecutive non-empty lines.
    pub fn line_groups(&self) -> (r: Vec<Vec<String>>)
        ensures
            r@.map_values(|g: Vec<String>| g@) == Self::spec_groups(
                self.lines@,
                0,
                Seq::empty(),
            ),
    {
        let n = self.lines.len();
        let mut out: Vec<Vec<String>> = Vec::new();
        let mut cur: Vec<String> = Vec::new();
        let mut k: usize = 0;
        while k < n
            invariant
                0 <= k <= n == self.lines@.len(),
                Self::spec_groups(self.lines@, 0, Seq::empty()) == out@.map_values(
                    |g: Vec<String>| g@,
                ) + Self::spec_groups(self.lines@, k as int, cur@),
            decreases n - k,
        {
            let line = &self.lines[k];
            if line.as_str().is_empty() {
                if cur.len() > 0 {
                    let ghost prev = out@;
                    out.push(cur);
                    proof {
                        assert(out@.map_values(|g: Vec<String>| g@) =~= prev.map_values(
                            |g: Vec<String>| g@,
                        ).push(out@[out@.len() - 1]@));
                    }
                    cur = Vec::new();
                } else {
                    assert(cur@ =~= Seq::<String>::empty());
                }
            } else {
                cur.push(line.clone());
            }
            k += 1;
        }
        if cur.len() > 0 {
            let ghost prev = out@;
            out.push(cur);
            proof {
                assert(out@.map_values(|g: Vec<String>| g@) =~= prev.map_values(
                    |g: Vec<String>| g@,
                ).push(out@[out@.len() - 1]@));
            }
        } else {
            assert(cur@ =~= Seq::<String>::empty());
        }
        out
    }

    /// Returns the count of line groups.
    pub fn line_group_cnt(&self) -> (r: usize)
        ensures
            r == Self::spec_groups(self.lines@, 0, Seq::empty()).len(),
    {
        self.line_groups().len()
    }

    /// Converts into the underlying line vector.
    pub fn into_vec(self) -> (r: Vec<String>)
        ensures
            r == self.lines,
    {
        self.lines
    }

    /// A copy of this blockquote holding equal lines.
    pub fn to_borrowed(&self) -> (r: Blockquote)
        ensures
            r.lines@ == self.lines@,
    {
        let mut out: Vec<String> = Vec::new();
        let mut k: usize = 0;
        let n = self.lines.len();
        while k < n
            invariant
                0 <= k <= n == self.lines@.len(),
                out@ == self.lines@.take(k as int),
            decreases n - k,
        {
            out.push(self.lines[k].clone());
            assert(out@ =~= self.lines@.take(k + 1));
            k += 1;
        }
        assert(out@ =~= self.lines@);
        Blockquote { lines: out }
    }

    /// Passes the blockquote through by value.
    pub fn into_owned(self) -> (r: Blockquote)
        ensures
            r == self,
    {
        self
    }

    /// Structural equality, regions and all: for a blockquote there is
    /// nothing beyond its lines.
    pub fn strict_eq(&self, other: &Blockquote) -> (r: bool)
        ensures
            r == (line_views(self.lines@) =~= line_views(other.lines@)),
    {
        let n = self.lines.len();
        if n != other.lines.len() {
            return false;
        }
        let mut k: usize = 0;
        while k < n
            invariant
                0 <= k <= n == self.lines@.len(),
                n == other.lines@.len(),
                forall|m: int| 0 <= m < k ==> (#[trigger] self.lines@[m])@ == other.lines@[m]@,
            decreases n - k,
        {
            if !self.lines[k].eq(&other.lines[k]) {
                assert(line_views(self.lines@)[k as int] != line_views(other.lines@)[k as int]);
                return false;
            }
            k += 1;
        }
        true
    }
}

// ---------------------------------------------------------------------------
// List item contents access
// ---------------------------------------------------------------------------

/// The inline elements under a list item's content pieces, flattened in
/// order; sublists contribute nothing.
pub open spec fn spec_inline_contents(cs: Seq<Located<ListItemContent>>) -> Seq<InlineElement>
    decreases cs.len(),
{
    if cs.len() == 0 {
        Seq::empty()
    } else {
        (match cs[0].element {
            ListItemContent::InlineContent(c) => c.elements@.map_values(
                |le: Located<InlineElement>| le.element,
            ),
            ListItemContent::List(_) => Seq::empty(),
        }) + spec_inline_contents(cs.drop_first())
    }
}

/// The positions `(piece, element)` of those inline elements.
pub open spec fn spec_inline_positions(cs: Seq<Located<ListItemContent>>, k: int) -> Seq<
    (int, int),
>
    decreases cs.len() - k,
{
    if k < 0 || k >= cs.len() {
        Seq::empty()
    } else {
        (match cs[k].element {
            ListItemContent::InlineContent(c) => Seq::new(c.elements@.len(), |j: int| (k, j)),
            ListItemContent::List(_) => Seq::empty(),
        }) + spec_inline_positions(cs, k + 1)
    }
}

/// The positions of the sublist pieces.
pub open spec fn spec_sublist_positions(cs: Seq<Located<ListItemContent>>, k: int) -> Seq<int>
    decreases cs.len() - k,
{
    if k < 0 || k >= cs.len() {
        Seq::empty()
    } else {
        (match cs[k].element {
            ListItemContent::List(_) => seq![k],
            ListItemContent::InlineContent(_) => Seq::empty(),
        }) + spec_sublist_positions(cs, k + 1)
    }
}

/// Law: each sublist position indexes a `List` piece of the contents.
pub proof fn lemma_sublist_positions(cs: Seq<Located<ListItemContent>>, k: int)
    requires
        0 <= k,
    ensures
        forall|m: int|
            0 <= m < spec_sublist_positions(cs, k).len() ==> k <= (
            #[trigger] spec_sublist_positions(cs, k)[m]) < cs.len() && cs[
                spec_sublist_positions(cs, k)[m]
            ].element is List,
    decreases cs.len() - k,
{
    if 0 <= k < cs.len() {
        lemma_sublist_positions(cs, k + 1);
        match cs[k].element {
            ListItemContent::List(_) => {
                assert forall|m: int|
                    0 <= m < spec_sublist_positions(cs, k).len() implies k <= (
                #[trigger] spec_sublist_positions(cs, k)[m]) < cs.len() && cs[
                    spec_sublist_positions(cs, k)[m]
                ].element is List by {
                    if m > 0 {
                        assert(spec_sublist_positions(cs, k)[m] == spec_sublist_positions(
                            cs,
                            k + 1,
                        )[m - 1]);
                    }
                }
            },
            ListItemContent::InlineContent(_) => {
                assert(spec_sublist_positions(cs, k) =~= spec_sublist_positions(cs, k + 1));
            },
        }
    }
}

impl ListItemContents {
    /// The inline elements in this item's content pieces, in order.
    pub fn inline_content_iter(&self) -> (r: Vec<&InlineElement>)
        ensures
            r@.len() == spec_inline_contents(self.contents@).len(),
            forall|m: int| 0 <= m < r@.len() ==> *(#[trigger] r@[m]) == spec_inline_contents(
                self.contents@,
            )[m],
    {
        proof {
            assert(self.contents@.skip(0) =~= self.contents@);
        }
        collect_inline_contents(&self.contents, 0)
    }

    /// The positions of the inline elements, as pairs of a content-piece
    /// index and an element index within it: the mutable counterpart of
    /// `inline_content_iter`, addressing the elements for in-place
    /// update through the public fields.
    pub fn inline_content_iter_mut(&mut self) -> (r: Vec<(usize, usize)>)
        ensures
            *final(self) == *old(self),
            r@.map_values(|p: (usize, usize)| (p.0 as int, p.1 as int))
                == spec_inline_positions(old(self).contents@, 0),
    {
        collect_inline_positions(&self.contents, 0)
    }

    /// The nested sublists among this item's content pieces, in order.
    pub fn sublist_iter(&self) -> (r: Vec<&List>)
        ensures
            r@.len() == spec_sublist_positions(self.contents@, 0).len(),
            forall|m: int| 0 <= m < r@.len() ==> *(#[trigger] r@[m]) == self.contents@[
                spec_sublist_positions(self.contents@, 0)[m]
            ].element->List_0,
    {
        collect_sublists(&self.contents, 0)
    }

    /// The positions of the sublist pieces: the mutable counterpart of
    /// `sublist_iter`, addressing the sublists for in-place update
    /// through the public fields.
    pub fn sublist_iter_mut(&mut self) -> (r: Vec<usize>)
        ensures
            *final(self) == *old(self),
            r@.map_values(|p: usize| p as int) == spec_sublist_positions(
                old(self).contents@,
                0,
            ),
    {
        collect_sublist_positions(&self.contents, 0)
    }
}

fn collect_inline_contents(cs: &Vec<Located<ListItemContent>>, k: usize) -> (r: Vec<
    &InlineElement,
>)
    requires
        k <= cs@.len(),
    ensures
        r@.len() == spec_inline_contents(cs@.skip(k as int)).len(),
        forall|m: int| 0 <= m < r@.len() ==> *(#[trigger] r@[m]) == spec_inline_contents(
            cs@.skip(k as int),
        )[m],
    decreases cs@.len() - k,
{
    if k == cs.len() {
        proof {
            assert(cs@.skip(k as int) =~= Seq::<Located<ListItemContent>>::empty());
        }
        return Vec::new();
    }
    let mut rest = collect_inline_contents(cs, k + 1);
    proof {
        assert(cs@.skip(k as int).drop_first() =~= cs@.skip(k + 1));
        assert(cs@.skip(k as int)[0] == cs@[k as int]);
    }
    match &cs[k].element {
        ListItemContent::InlineContent(c) => {
            let mut out: Vec<&InlineElement> = Vec::new();
            let mut j: usize = 0;
            let cl = c.elements.len();
            while j < cl
                invariant
                    0 <= j <= cl == c.elements@.len(),
                    out@.len() == j,
                    forall|m: int| 0 <= m < j ==> *(#[trigger] out@[m]) == c.elements@[
                        m
                    ].element,
                decreases cl - j,
            {
                out.push(&c.elements[j].element);
                j += 1;
            }
            let ghost head = c.elements@.map_values(|le: Located<InlineElement>| le.element);
            let ghost outg = out@;
            let mut all = out;
            all.append(&mut rest);
            proof {
                let whole = spec_inline_contents(cs@.skip(k as int));
                assert forall|m: int| 0 <= m < all@.len() implies *(#[trigger] all@[m])
                    == whole[m] by {
                    if m < head.len() {
                        assert(all@[m] == outg[m]);
                    }
                }
            }
            all
        },
        ListItemContent::List(_) => rest,
    }
}

fn collect_inline_positions(cs: &Vec<Located<ListItemContent>>, k: usize) -> (r: Vec<
    (usize, usize),
>)
    requires
        k <= cs@.len(),
    ensures
        r@.map_values(|p: (usize, usize)| (p.0 as int, p.1 as int)) == spec_inline_positions(
            cs@,
            k as int,
        ),
    decreases cs@.len() - k,
{
    if k == cs.len() {
        let r: Vec<(usize, usize)> = Vec::new();
        assert(r@.map_values(|p: (usize, usize)| (p.0 as int, p.1 as int))
            =~= spec_inline_positions(cs@, k as int));
        return r;
    }
    let mut rest = collect_inline_positions(cs, k + 1);
    match &cs[k].element {
        ListItemContent::InlineContent(c) => {
            let mut out: Vec<(usize, usize)> = Vec::new();
            let mut j: usize = 0;
            let cl = c.elements.len();
            while j < cl
                invariant
                    0 <= j <= cl == c.elements@.len(),
                    k < cs@.len(),
                    out@.len() == j,
                    forall|m: int| 0 <= m < j ==> (#[trigger] out@[m]) == (
                        k,
                        m as usize,
                    ),
                decreases cl - j,
            {
                out.push((k, j));
                j += 1;
            }
            let ghost outg = out@;
            let mut all = out;
            all.append(&mut rest);
            proof {
                assert(all@.map_values(|p: (usize, usize)| (p.0 as int, p.1 as int))
                    =~= spec_inline_positions(cs@, k as int));
            }
            all
        },
        ListItemContent::List(_) => rest,
    }
}

fn collect_sublists(cs: &Vec<Located<ListItemContent>>, k: usize) -> (r: Vec<&List>)
    requires
        k <= cs@.len(),
    ensures
        r@.len() == spec_sublist_positions(cs@, k as int).len(),
        forall|m: int| 0 <= m < r@.len() ==> *(#[trigger] r@[m]) == cs@[
            spec_sublist_positions(cs@, k as int)[m]
        ].element->List_0,
    decreases cs@.len() - k,
{
    if k == cs.len() {
        return Vec::new();
    }
    let mut rest = collect_sublists(cs, k + 1);
    match &cs[k].element {
        ListItemContent::List(l) => {
            let mut all: Vec<&List> = Vec::new();
            all.push(l);
            let ghost restg = rest@;
            all.append(&mut rest);
            proof {
                let whole = spec_sublist_positions(cs@, k as int);
                assert(whole =~= seq![k as int] + spec_sublist_positions(cs@, k + 1));
                assert forall|m: int| 0 <= m < all@.len() implies *(#[trigger] all@[m])
                    == cs@[whole[m]].element->List_0 by {
                    if m == 0 {
                        assert(whole[0] == k as int);
                    } else {
                        assert(all@[m] == restg[m - 1]);
                        assert(whole[m] == spec_sublist_positions(cs@, k + 1)[m - 1]);
                    }
                }
            }
            all
        },
        ListItemContent::InlineContent(_) => {
            proof {
                assert(spec_sublist_positions(cs@, k as int) =~= spec_sublist_positions(
                    cs@,
                    k + 1,
                ));
            }
            rest
        },
    }
}

fn collect_sublist_positions(cs: &Vec<Located<ListItemContent>>, k: usize) -> (r: Vec<usize>)
    requires
        k <= cs@.len(),
    ensures
        r@.map_values(|p: usize| p as int) == spec_sublist_positions(cs@, k as int),
    decreases cs@.len() - k,
{
    if k == cs.len() {
        let r: Vec<usize> = Vec::new();
        assert(r@.map_values(|p: usize| p as int) =~= spec_sublist_positions(cs@, k as int));
        return r;
    }
    let rest = collect_sublist_positions(cs, k + 1);
    match &cs[k].element {
        ListItemContent::List(_) => {
            let mut all: Vec<usize> = Vec::new();
            all.push(k);
            let mut restv = rest;
            all.append(&mut restv);
            proof {
                assert(all@.map_values(|p: usize| p as int) =~= spec_sublist_positions(
                    cs@,
                    k as int,
                ));
            }
            all
        },
        ListItemContent::InlineContent(_) => rest,
    }
}

} // verus!
