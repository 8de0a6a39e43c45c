//! Deep equality of element values, and copies proven against it.
//!
//! Two values are equivalent when every field agrees: scalars and
//! regions exactly, strings character for character, vectors element by
//! element. This is the relation the spatial index's construction
//! contract states of the elements its nodes hold: it pins the whole
//! value, leaving open only what no reader can observe (such as a
//! vector's spare capacity, which keeps plain `==` out of reach for
//! copied values).

use vstd::prelude::*;
use crate::elements::{
    BlockElement, Blockquote, Cell, DecoratedText, DecoratedTextContent, Definition,
    DefinitionList, EnhancedListItem, Header, InlineElement, InlineElementContainer,
    InterWikiLink, Link, List, ListItem, ListItemContent, ListItemContents, MathBlock,
    MathInline, Paragraph, Placeholder, PreformattedText, Row, Table, Tags, Term,
    TermAndDefinitions, TransclusionLink, WikiLink,
};
use crate::location::Located;

verus! {

// ---------------------------------------------------------------------------
// The equivalence, leaves first
// ---------------------------------------------------------------------------

pub open spec fn str_seq_eqv(a: Seq<String>, b: Seq<String>) -> bool {
    a.len() == b.len() && forall|k: int| 0 <= k < a.len() ==> (#[trigger] a[k])@ == b[k]@
}

pub open spec fn props_eqv(a: Seq<(String, String)>, b: Seq<(String, String)>) -> bool {
    a.len() == b.len() && forall|k: int|
        0 <= k < a.len() ==> (#[trigger] a[k]).0@ == b[k].0@ && a[k].1@ == b[k].1@
}

pub open spec fn opt_str_eqv(a: Option<String>, b: Option<String>) -> bool {
    match (a, b) {
        (Some(x), Some(y)) => x@ == y@,
        (None, None) => true,
        _ => false,
    }
}

pub open spec fn opt_desc_eqv(
    a: Option<crate::elements::Description>,
    b: Option<crate::elements::Description>,
) -> bool {
    match (a, b) {
        (Some(x), Some(y)) => x.text@ == y.text@,
        (None, None) => true,
        _ => false,
    }
}

pub open spec fn wiki_link_eqv(a: WikiLink, b: WikiLink) -> bool {
    a.path@ == b.path@ && opt_str_eqv(a.anchor, b.anchor) && opt_desc_eqv(
        a.description,
        b.description,
    )
}

pub open spec fn link_eqv(a: Link, b: Link) -> bool {
    match (a, b) {
        (Link::Wiki(x), Link::Wiki(y)) => wiki_link_eqv(x, y),
        (Link::InterWiki(x), Link::InterWiki(y)) => match (x, y) {
            (InterWikiLink::Indexed(i1), InterWikiLink::Indexed(i2)) => i1.index == i2.index
                && wiki_link_eqv(i1.link, i2.link),
            (InterWikiLink::Named(n1), InterWikiLink::Named(n2)) => n1.name@ == n2.name@
                && wiki_link_eqv(n1.link, n2.link),
            _ => false,
        },
        (Link::Diary(x), Link::Diary(y)) => x.date == y.date && opt_str_eqv(x.anchor, y.anchor)
            && opt_desc_eqv(x.description, y.description),
        (Link::ExternalFile(x), Link::ExternalFile(y)) => x.scheme == y.scheme && x.path@
            == y.path@ && opt_desc_eqv(x.description, y.description),
        (Link::Raw(x), Link::Raw(y)) => x.uri@ == y.uri@,
        (Link::Transclusion(x), Link::Transclusion(y)) => x.uri@ == y.uri@ && opt_desc_eqv(
            x.description,
            y.description,
        ) && props_eqv(x.properties@, y.properties@),
        _ => false,
    }
}

pub open spec fn tags_eqv(a: Tags, b: Tags) -> bool {
    str_seq_eqv(a.values@, b.values@)
}

pub open spec fn dtc_seq_eqv(
    a: Seq<Located<DecoratedTextContent>>,
    b: Seq<Located<DecoratedTextContent>>,
) -> bool
    decreases a,
{
    a.len() == b.len() && forall|k: int|
        0 <= k < a.len() ==> (#[trigger] a[k]).region == b[k].region && dtc_eqv(
            a[k].element,
            b[k].element,
        )
}

pub open spec fn dtc_eqv(a: DecoratedTextContent, b: DecoratedTextContent) -> bool
    decreases a,
{
    match (a, b) {
        (DecoratedTextContent::Text(x), DecoratedTextContent::Text(y)) => x@ == y@,
        (DecoratedTextContent::Keyword(x), DecoratedTextContent::Keyword(y)) => x == y,
        (DecoratedTextContent::Link(x), DecoratedTextContent::Link(y)) => link_eqv(x, y),
        (
            DecoratedTextContent::DecoratedText(x),
            DecoratedTextContent::DecoratedText(y),
        ) => decorated_eqv(x, y),
        _ => false,
    }
}

pub open spec fn decorated_eqv(a: DecoratedText, b: DecoratedText) -> bool
    decreases a,
{
    a.decoration == b.decoration && dtc_seq_eqv(a.contents@, b.contents@)
}

pub open spec fn inline_eqv(a: InlineElement, b: InlineElement) -> bool
    decreases a,
{
    match (a, b) {
        (InlineElement::Text(x), InlineElement::Text(y)) => x@ == y@,
        (InlineElement::Keyword(x), InlineElement::Keyword(y)) => x == y,
        (InlineElement::Math(x), InlineElement::Math(y)) => x.formula@ == y.formula@,
        (InlineElement::Tags(x), InlineElement::Tags(y)) => tags_eqv(x, y),
        (InlineElement::Link(x), InlineElement::Link(y)) => link_eqv(x, y),
        (InlineElement::DecoratedText(x), InlineElement::DecoratedText(y)) => decorated_eqv(
            x,
            y,
        ),
        _ => false,
    }
}

pub open spec fn inline_seq_eqv(
    a: Seq<Located<InlineElement>>,
    b: Seq<Located<InlineElement>>,
) -> bool
    decreases a,
{
    a.len() == b.len() && forall|k: int|
        0 <= k < a.len() ==> (#[trigger] a[k]).region == b[k].region && inline_eqv(
            a[k].element,
            b[k].element,
        )
}

pub open spec fn container_eqv(a: InlineElementContainer, b: InlineElementContainer) -> bool
    decreases a,
{
    inline_seq_eqv(a.elements@, b.elements@)
}

pub open spec fn lic_eqv(a: ListItemContent, b: ListItemContent) -> bool
    decreases a,
{
    match (a, b) {
        (ListItemContent::InlineContent(x), ListItemContent::InlineContent(y)) =>
            container_eqv(x, y),
        (ListItemContent::List(x), ListItemContent::List(y)) => list_eqv(x, y),
        _ => false,
    }
}

pub open spec fn lic_seq_eqv(
    a: Seq<Located<ListItemContent>>,
    b: Seq<Located<ListItemContent>>,
) -> bool
    decreases a,
{
    a.len() == b.len() && forall|k: int|
        0 <= k < a.len() ==> (#[trigger] a[k]).region == b[k].region && lic_eqv(
            a[k].element,
            b[k].element,
        )
}

pub open spec fn item_eqv(a: EnhancedListItem, b: EnhancedListItem) -> bool
    decreases a,
{
    &&& a.attributes == b.attributes
    &&& a.item.item_type == b.item.item_type
    &&& a.item.suffix == b.item.suffix
    &&& a.item.depth == b.item.depth
    &&& lic_seq_eqv(a.item.contents.contents@, b.item.contents.contents@)
}

pub open spec fn item_seq_eqv(
    a: Seq<Located<EnhancedListItem>>,
    b: Seq<Located<EnhancedListItem>>,
) -> bool
    decreases a,
{
    a.len() == b.len() && forall|k: int|
        0 <= k < a.len() ==> (#[trigger] a[k]).region == b[k].region && item_eqv(
            a[k].element,
            b[k].element,
        )
}

pub open spec fn list_eqv(a: List, b: List) -> bool
    decreases a,
{
    item_seq_eqv(a.items@, b.items@)
}

pub open spec fn cell_eqv(a: Cell, b: Cell) -> bool
    decreases a,
{
    match (a, b) {
        (Cell::Content(x), Cell::Content(y)) => container_eqv(x, y),
        (Cell::Span(x), Cell::Span(y)) => x == y,
        (Cell::Empty, Cell::Empty) => true,
        _ => false,
    }
}

pub open spec fn cell_seq_eqv(a: Seq<Located<Cell>>, b: Seq<Located<Cell>>) -> bool
    decreases a,
{
    a.len() == b.len() && forall|k: int|
        0 <= k < a.len() ==> (#[trigger] a[k]).region == b[k].region && cell_eqv(
            a[k].element,
            b[k].element,
        )
}

pub open spec fn row_eqv(a: Row, b: Row) -> bool
    decreases a,
{
    match (a, b) {
        (Row::Content { cells: x }, Row::Content { cells: y }) => cell_seq_eqv(x@, y@),
        (Row::Divider, Row::Divider) => true,
        _ => false,
    }
}

pub open spec fn row_seq_eqv(a: Seq<Located<Row>>, b: Seq<Located<Row>>) -> bool
    decreases a,
{
    a.len() == b.len() && forall|k: int|
        0 <= k < a.len() ==> (#[trigger] a[k]).region == b[k].region && row_eqv(
            a[k].element,
            b[k].element,
        )
}

pub open spec fn term_eqv(a: Located<Term>, b: Located<Term>) -> bool
    decreases a,
{
    a.region == b.region && container_eqv(a.element.content, b.element.content)
}

pub open spec fn def_eqv(a: Located<Definition>, b: Located<Definition>) -> bool
    decreases a,
{
    a.region == b.region && container_eqv(a.element.content, b.element.content)
}

pub open spec fn def_seq_eqv(a: Seq<Located<Definition>>, b: Seq<Located<Definition>>) -> bool
    decreases a,
{
    a.len() == b.len() && forall|k: int| 0 <= k < a.len() ==> def_eqv(#[trigger] a[k], b[k])
}

pub open spec fn entry_eqv(a: TermAndDefinitions, b: TermAndDefinitions) -> bool
    decreases a,
{
    term_eqv(a.term, b.term) && def_seq_eqv(a.definitions@, b.definitions@)
}

pub open spec fn entry_seq_eqv(a: Seq<TermAndDefinitions>, b: Seq<TermAndDefinitions>) -> bool
    decreases a,
{
    a.len() == b.len() && forall|k: int| 0 <= k < a.len() ==> entry_eqv(#[trigger] a[k], b[k])
}

pub open spec fn placeholder_eqv(a: Placeholder, b: Placeholder) -> bool {
    match (a, b) {
        (Placeholder::Title(x), Placeholder::Title(y)) => x@ == y@,
        (Placeholder::Date(x), Placeholder::Date(y)) => x == y,
        (Placeholder::Template(x), Placeholder::Template(y)) => x@ == y@,
        (Placeholder::NoHtml, Placeholder::NoHtml) => true,
        (Placeholder::Other { name: n1, value: v1 }, Placeholder::Other {
            name: n2,
            value: v2,
        }) => n1@ == n2@ && v1@ == v2@,
        _ => false,
    }
}

/// Deep equality of two block elements.
pub open spec fn block_eqv(a: BlockElement, b: BlockElement) -> bool
    decreases a,
{
    match (a, b) {
        (BlockElement::Header(x), BlockElement::Header(y)) => x.level == y.level && x.centered
            == y.centered && container_eqv(x.content, y.content),
        (BlockElement::Paragraph(x), BlockElement::Paragraph(y)) => container_eqv(
            x.content,
            y.content,
        ),
        (BlockElement::List(x), BlockElement::List(y)) => list_eqv(x, y),
        (BlockElement::Table(x), BlockElement::Table(y)) => x.centered == y.centered
            && row_seq_eqv(x.rows@, y.rows@),
        (BlockElement::Preformatted(x), BlockElement::Preformatted(y)) => opt_str_eqv(
            x.lang,
            y.lang,
        ) && props_eqv(x.metadata@, y.metadata@) && str_seq_eqv(x.lines@, y.lines@),
        (BlockElement::Math(x), BlockElement::Math(y)) => str_seq_eqv(x.lines@, y.lines@)
            && opt_str_eqv(x.environment, y.environment),
        (BlockElement::Blockquote(x), BlockElement::Blockquote(y)) => str_seq_eqv(
            x.lines@,
            y.lines@,
        ),
        (BlockElement::Divider(_), BlockElement::Divider(_)) => true,
        (BlockElement::Tags(x), BlockElement::Tags(y)) => tags_eqv(x, y),
        (BlockElement::DefinitionList(x), BlockElement::DefinitionList(y)) => entry_seq_eqv(
            x.entries@,
            y.entries@,
        ),
        (BlockElement::Placeholder(x), BlockElement::Placeholder(y)) => placeholder_eqv(x, y),
        (BlockElement::EmptyLine, BlockElement::EmptyLine) => true,
        (BlockElement::UnrecognizedLine(x), BlockElement::UnrecognizedLine(y)) => x@ == y@,
        _ => false,
    }
}

// ---------------------------------------------------------------------------
// Copies proven against the equivalence
// ---------------------------------------------------------------------------

pub fn dup_opt_string(a: &Option<String>) -> (r: Option<String>)
    ensures
        opt_str_eqv(r, *a),
{
    match a {
        Some(x) => Some(x.clone()),
        None => None,
    }
}

pub fn dup_opt_desc(a: &Option<crate::elements::Description>) -> (r: Option<
    crate::elements::Description,
>)
    ensures
        opt_desc_eqv(r, *a),
{
    match a {
        Some(x) => Some(crate::elements::Description { text: x.text.clone() }),
        None => None,
    }
}

pub fn dup_str_vec(a: &Vec<String>) -> (r: Vec<String>)
    ensures
        str_seq_eqv(r@, a@),
{
    let mut out: Vec<String> = Vec::new();
    let n = a.len();
    let mut k: usize = 0;
    while k < n
        invariant
            0 <= k <= n == a@.len(),
            out@.len() == k,
            forall|m: int| 0 <= m < k ==> (#[trigger] out@[m])@ == a@[m]@,
        decreases n - k,
    {
        out.push(a[k].clone());
        k += 1;
    }
    out
}

pub fn dup_props(a: &Vec<(String, String)>) -> (r: Vec<(String, String)>)
    ensures
        props_eqv(r@, a@),
{
    let mut out: Vec<(String, String)> = Vec::new();
    let n = a.len();
    let mut k: usize = 0;
    while k < n
        invariant
            0 <= k <= n == a@.len(),
            out@.len() == k,
            forall|m: int|
                0 <= m < k ==> (#[trigger] out@[m]).0@ == a@[m].0@ && out@[m].1@ == a@[m].1@,
        decreases n - k,
    {
        out.push((a[k].0.clone(), a[k].1.clone()));
        k += 1;
    }
    out
}

pub fn dup_wiki_link(a: &WikiLink) -> (r: WikiLink)
    ensures
        wiki_link_eqv(r, *a),
{
    WikiLink {
        path: a.path.clone(),
        anchor: dup_opt_string(&a.anchor),
        description: dup_opt_desc(&a.description),
    }
}

pub fn dup_link(a: &Link) -> (r: Link)
    ensures
        link_eqv(r, *a),
{
    match a {
        Link::Wiki(x) => Link::Wiki(dup_wiki_link(x)),
        Link::InterWiki(x) => Link::InterWiki(
            match x {
                InterWikiLink::Indexed(i) => InterWikiLink::Indexed(
                    crate::elements::IndexedInterWikiLink {
                        index: i.index,
                        link: dup_wiki_link(&i.link),
                    },
                ),
                InterWikiLink::Named(nm) => InterWikiLink::Named(
                    crate::elements::NamedInterWikiLink {
                        name: nm.name.clone(),
                        link: dup_wiki_link(&nm.link),
                    },
                ),
            },
        ),
        Link::Diary(x) => Link::Diary(
            crate::elements::DiaryLink {
                date: x.date,
                anchor: dup_opt_string(&x.anchor),
                description: dup_opt_desc(&x.description),
            },
        ),
        Link::ExternalFile(x) => Link::ExternalFile(
            crate::elements::ExternalFileLink {
                scheme: x.scheme,
                path: x.path.clone(),
                description: dup_opt_desc(&x.description),
            },
        ),
        Link::Raw(x) => Link::Raw(crate::elements::RawLink { uri: x.uri.clone() }),
        Link::Transclusion(x) => Link::Transclusion(
            TransclusionLink {
                uri: x.uri.clone(),
                description: dup_opt_desc(&x.description),
                properties: dup_props(&x.properties),
            },
        ),
    }
}

pub fn dup_tags(a: &Tags) -> (r: Tags)
    ensures
        tags_eqv(r, *a),
{
    Tags { values: dup_str_vec(&a.values) }
}

/// Copies the contents of a decorated run.
pub fn dup_decorated_contents(d: &DecoratedText) -> (r: Vec<Located<DecoratedTextContent>>)
    ensures
        dtc_seq_eqv(r@, d.contents@),
    decreases *d, 1int,
{
    let mut out: Vec<Located<DecoratedTextContent>> = Vec::new();
    let n = d.contents.len();
    let mut k: usize = 0;
    while k < n
        invariant
            0 <= k <= n == d.contents@.len(),
            out@.len() == k,
            forall|m: int|
                0 <= m < k ==> (#[trigger] out@[m]).region == d.contents@[m].region && dtc_eqv(
                    out@[m].element,
                    d.contents@[m].element,
                ),
        decreases n - k, 0int,
    {
        let lc = &d.contents[k];
        proof {
            assert(decreases_to!(*d => d.contents@[k as int].element));
        }
        out.push(Located { element: dup_dtc(&lc.element), region: lc.region });
        k += 1;
    }
    out
}

pub fn dup_dtc(c: &DecoratedTextContent) -> (r: DecoratedTextContent)
    ensures
        dtc_eqv(r, *c),
    decreases *c, 2int,
{
    match c {
        DecoratedTextContent::Text(s) => DecoratedTextContent::Text(s.clone()),
        DecoratedTextContent::Keyword(k) => DecoratedTextContent::Keyword(*k),
        DecoratedTextContent::Link(l) => DecoratedTextContent::Link(dup_link(l)),
        DecoratedTextContent::DecoratedText(d) => {
            proof {
                assert((*c)->DecoratedText_0 == *d);
                assert(decreases_to!(*c => (*c)->DecoratedText_0));
            }
            DecoratedTextContent::DecoratedText(
                DecoratedText { contents: dup_decorated_contents(d), decoration: d.decoration },
            )
        },
    }
}

pub fn dup_inline(e: &InlineElement) -> (r: InlineElement)
    ensures
        inline_eqv(r, *e),
{
    match e {
        InlineElement::Text(s) => InlineElement::Text(s.clone()),
        InlineElement::Keyword(k) => InlineElement::Keyword(*k),
        InlineElement::Math(m) => InlineElement::Math(MathInline { formula: m.formula.clone() }),
        InlineElement::Tags(t) => InlineElement::Tags(dup_tags(t)),
        InlineElement::Link(l) => InlineElement::Link(dup_link(l)),
        InlineElement::DecoratedText(d) => InlineElement::DecoratedText(
            DecoratedText { contents: dup_decorated_contents(d), decoration: d.decoration },
        ),
    }
}

pub fn dup_container(c: &InlineElementContainer) -> (r: InlineElementContainer)
    ensures
        container_eqv(r, *c),
{
    let mut out: Vec<Located<InlineElement>> = Vec::new();
    let n = c.elements.len();
    let mut k: usize = 0;
    while k < n
        invariant
            0 <= k <= n == c.elements@.len(),
            out@.len() == k,
            forall|m: int|
                0 <= m < k ==> (#[trigger] out@[m]).region == c.elements@[m].region
                    && inline_eqv(out@[m].element, c.elements@[m].element),
        decreases n - k,
    {
        let le = &c.elements[k];
        out.push(Located { element: dup_inline(&le.element), region: le.region });
        k += 1;
    }
    InlineElementContainer { elements: out }
}

/// Copies a list, items and sublists and all.
pub fn dup_list(l: &List) -> (r: List)
    ensures
        list_eqv(r, *l),
    decreases *l, 1int,
{
    let mut items: Vec<Located<EnhancedListItem>> = Vec::new();
    let ni = l.items.len();
    let mut i: usize = 0;
    while i < ni
        invariant
            0 <= i <= ni == l.items@.len(),
            items@.len() == i,
            forall|m: int|
                0 <= m < i ==> (#[trigger] items@[m]).region == l.items@[m].region && item_eqv(
                    items@[m].element,
                    l.items@[m].element,
                ),
        decreases ni - i, 2int,
    {
        let it = &l.items[i];
        let contents = &it.element.item.contents.contents;
        let mut pieces: Vec<Located<ListItemContent>> = Vec::new();
        let np = contents.len();
        let mut p: usize = 0;
        while p < np
            invariant
                0 <= p <= np == contents@.len(),
                0 <= i < l.items@.len(),
                *it == l.items@[i as int],
                contents == &it.element.item.contents.contents,
                pieces@.len() == p,
                forall|m: int|
                    0 <= m < p ==> (#[trigger] pieces@[m]).region == contents@[m].region
                        && lic_eqv(pieces@[m].element, contents@[m].element),
            decreases np - p, 1int,
        {
            let piece = &contents[p];
            let copied: ListItemContent = match &piece.element {
                ListItemContent::InlineContent(c) => ListItemContent::InlineContent(
                    dup_container(c),
                ),
                ListItemContent::List(sub) => {
                    proof {
                        assert(decreases_to!(*l => l.items@[i as int].element));
                        assert(decreases_to!(l.items@[i as int].element => l.items@[
                            i as int
                        ].element.item.contents.contents@[p as int].element));
                        assert((piece.element)->List_0 == *sub);
                        assert(decreases_to!(piece.element => (piece.element)->List_0));
                    }
                    ListItemContent::List(dup_list(sub))
                },
            };
            pieces.push(Located { element: copied, region: piece.region });
            p += 1;
        }
        items.push(
            Located {
                element: EnhancedListItem {
                    item: ListItem {
                        item_type: it.element.item.item_type,
                        suffix: it.element.item.suffix,
                        depth: it.element.item.depth,
                        contents: ListItemContents { contents: pieces },
                    },
                    attributes: it.element.attributes,
                },
                region: it.region,
            },
        );
        i += 1;
    }
    List { items }
}

pub fn dup_row(w: &Row) -> (r: Row)
    ensures
        row_eqv(r, *w),
{
    match w {
        Row::Divider => Row::Divider,
        Row::Content { cells } => {
            let mut out: Vec<Located<Cell>> = Vec::new();
            let n = cells.len();
            let mut k: usize = 0;
            while k < n
                invariant
                    0 <= k <= n == cells@.len(),
                    out@.len() == k,
                    forall|m: int|
                        0 <= m < k ==> (#[trigger] out@[m]).region == cells@[m].region
                            && cell_eqv(out@[m].element, cells@[m].element),
                decreases n - k,
            {
                let lc = &cells[k];
                let copied: Cell = match &lc.element {
                    Cell::Content(c) => Cell::Content(dup_container(c)),
                    Cell::Span(sp) => Cell::Span(*sp),
                    Cell::Empty => Cell::Empty,
                };
                out.push(Located { element: copied, region: lc.region });
                k += 1;
            }
            Row::Content { cells: out }
        },
    }
}

pub fn dup_entry(e: &TermAndDefinitions) -> (r: TermAndDefinitions)
    ensures
        entry_eqv(r, *e),
{
    let term = Located {
        element: Term { content: dup_container(&e.term.element.content) },
        region: e.term.region,
    };
    let mut defs: Vec<Located<Definition>> = Vec::new();
    let n = e.definitions.len();
    let mut k: usize = 0;
    while k < n
        invariant
            0 <= k <= n == e.definitions@.len(),
            defs@.len() == k,
            forall|m: int| 0 <= m < k ==> def_eqv(#[trigger] defs@[m], e.definitions@[m]),
        decreases n - k,
    {
        let d = &e.definitions[k];
        defs.push(
            Located {
                element: Definition { content: dup_container(&d.element.content) },
                region: d.region,
            },
        );
        k += 1;
    }
    TermAndDefinitions { term, definitions: defs }
}

/// Copies a block element, whole.
pub fn dup_block(e: &BlockElement) -> (r: BlockElement)
    ensures
        block_eqv(r, *e),
{
    match e {
        BlockElement::Header(h) => BlockElement::Header(
            Header { level: h.level, content: dup_container(&h.content), centered: h.centered },
        ),
        BlockElement::Paragraph(p) => BlockElement::Paragraph(
            Paragraph { content: dup_container(&p.content) },
        ),
        BlockElement::List(l) => BlockElement::List(dup_list(l)),
        BlockElement::Table(t) => {
            let mut rows: Vec<Located<Row>> = Vec::new();
            let n = t.rows.len();
            let mut k: usize = 0;
            while k < n
                invariant
                    0 <= k <= n == t.rows@.len(),
                    rows@.len() == k,
                    forall|m: int|
                        0 <= m < k ==> (#[trigger] rows@[m]).region == t.rows@[m].region
                            && row_eqv(rows@[m].element, t.rows@[m].element),
                decreases n - k,
            {
                let w = &t.rows[k];
                rows.push(Located { element: dup_row(&w.element), region: w.region });
                k += 1;
            }
            BlockElement::Table(Table { rows, centered: t.centered })
        },
        BlockElement::Preformatted(p) => BlockElement::Preformatted(
            PreformattedText {
                lang: dup_opt_string(&p.lang),
                metadata: dup_props(&p.metadata),
                lines: dup_str_vec(&p.lines),
            },
        ),
        BlockElement::Math(m) => BlockElement::Math(
            MathBlock {
                lines: dup_str_vec(&m.lines),
                environment: dup_opt_string(&m.environment),
            },
        ),
        BlockElement::Blockquote(q) => BlockElement::Blockquote(
            Blockquote { lines: dup_str_vec(&q.lines) },
        ),
        BlockElement::Divider(_) => BlockElement::Divider(crate::elements::Divider),
        BlockElement::Tags(t) => BlockElement::Tags(dup_tags(t)),
        BlockElement::DefinitionList(d) => {
            let mut entries: Vec<TermAndDefinitions> = Vec::new();
            let n = d.entries.len();
            let mut k: usize = 0;
            while k < n
                invariant
                    0 <= k <= n == d.entries@.len(),
                    entries@.len() == k,
                    forall|m: int| 0 <= m < k ==> entry_eqv(#[trigger] entries@[m], d.entries@[m]),
                decreases n - k,
            {
                entries.push(dup_entry(&d.entries[k]));
                k += 1;
            }
            BlockElement::DefinitionList(DefinitionList { entries })
        },
        BlockElement::Placeholder(p) => BlockElement::Placeholder(
            match p {
                Placeholder::Title(x) => Placeholder::Title(x.clone()),
                Placeholder::Date(x) => Placeholder::Date(*x),
                Placeholder::Template(x) => Placeholder::Template(x.clone()),
                Placeholder::NoHtml => Placeholder::NoHtml,
                Placeholder::Other { name, value } => Placeholder::Other {
                    name: name.clone(),
                    value: value.clone(),
                },
            },
        ),
        BlockElement::EmptyLine => BlockElement::EmptyLine,
        BlockElement::UnrecognizedLine(s) => BlockElement::UnrecognizedLine(s.clone()),
    }
}

} // verus!
