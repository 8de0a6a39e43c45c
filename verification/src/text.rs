//! The plain reading of inline content: the text a human sees, without
//! delimiters or targets, and the definition-list queries built on it.

use vstd::prelude::*;
use crate::chars::chars_to_string;
use crate::elements::{
    DecoratedTextContent, Definition, DefinitionList, InlineElement, InlineElementContainer,
    Keyword, Link, TermAndDefinitions,
};
use crate::inline::keyword_chars;
use crate::location::Located;

verus! {

/// The plain text of one inline element: text and formulas read as
/// themselves, keywords as their word, decorated runs as their nested
/// reading, links as their description, and tag runs as nothing.
pub open spec fn spec_elem_text(e: InlineElement) -> Seq<char>
    decreases e,
{
    match e {
        InlineElement::Text(s) => s@,
        InlineElement::Keyword(k) => keyword_chars(k),
        InlineElement::Math(m) => m.formula@,
        InlineElement::Tags(_) => Seq::empty(),
        InlineElement::Link(l) => spec_link_text(l),
        InlineElement::DecoratedText(d) => spec_dtc_texts(d.contents@, 0),
    }
}

/// A link reads as its description, when it carries one.
pub open spec fn spec_link_text(l: Link) -> Seq<char> {
    match l {
        Link::Wiki(w) => match w.description {
            Some(d) => d.text@,
            None => Seq::empty(),
        },
        Link::ExternalFile(e) => match e.description {
            Some(d) => d.text@,
            None => Seq::empty(),
        },
        Link::Diary(d) => match d.description {
            Some(dd) => dd.text@,
            None => Seq::empty(),
        },
        Link::Raw(rl) => rl.uri@,
        Link::Transclusion(t) => match t.description {
            Some(d) => d.text@,
            None => Seq::empty(),
        },
        Link::InterWiki(iw) => match iw {
            crate::elements::InterWikiLink::Indexed(il) => match il.link.description {
                Some(d) => d.text@,
                None => Seq::empty(),
            },
            crate::elements::InterWikiLink::Named(nl) => match nl.link.description {
                Some(d) => d.text@,
                None => Seq::empty(),
            },
        },
    }
}

/// The concatenated reading of a decorated run's contents.
pub open spec fn spec_dtc_texts(cs: Seq<Located<DecoratedTextContent>>, k: int) -> Seq<char>
    decreases cs, cs.len() - k,
{
    if k < 0 || k >= cs.len() {
        Seq::empty()
    } else {
        spec_dtc_text(cs[k].element) + spec_dtc_texts(cs, k + 1)
    }
}

pub open spec fn spec_dtc_text(c: DecoratedTextContent) -> Seq<char>
    decreases c,
{
    match c {
        DecoratedTextContent::Text(s) => s@,
        DecoratedTextContent::Keyword(k) => keyword_chars(k),
        DecoratedTextContent::Link(l) => spec_link_text(l),
        DecoratedTextContent::DecoratedText(d) => spec_dtc_texts(d.contents@, 0),
    }
}

/// The concatenated reading of a whole container.
pub open spec fn spec_container_text(es: Seq<Located<InlineElement>>, k: int) -> Seq<char>
    decreases es.len() - k,
{
    if k < 0 || k >= es.len() {
        Seq::empty()
    } else {
        spec_elem_text(es[k].element) + spec_container_text(es, k + 1)
    }
}

/// Reads the plain text of one inline element into a character vector.
fn elem_text_chars(e: &InlineElement) -> (r: Vec<char>)
    ensures
        r@ == spec_elem_text(*e),
    decreases *e, 1int,
{
    match e {
        InlineElement::Text(s) => crate::chars::str_to_chars(s.as_str()),
        InlineElement::Keyword(k) => keyword_word(*k),
        InlineElement::Math(m) => crate::chars::str_to_chars(m.formula.as_str()),
        InlineElement::Tags(_) => Vec::new(),
        InlineElement::Link(l) => link_text_chars(l),
        InlineElement::DecoratedText(d) => {
            let mut out: Vec<char> = Vec::new();
            let n = d.contents.len();
            let mut k: usize = 0;
            while k < n
                invariant
                    0 <= k <= n == d.contents@.len(),
                    *e == InlineElement::DecoratedText(*d),
                    spec_dtc_texts(d.contents@, 0) =~= out@ + spec_dtc_texts(
                        d.contents@,
                        k as int,
                    ),
                decreases n - k, 2int,
            {
                proof {
                    assert(decreases_to!(*d => d.contents@[k as int].element));
                }
                let mut piece = dtc_text_chars(&d.contents[k].element);
                out.append(&mut piece);
                k += 1;
            }
            out
        },
    }
}

/// Reads the plain text of one decorated-run element.
fn dtc_text_chars(c: &DecoratedTextContent) -> (r: Vec<char>)
    ensures
        r@ == spec_dtc_text(*c),
    decreases *c, 1int,
{
    match c {
        DecoratedTextContent::Text(s) => crate::chars::str_to_chars(s.as_str()),
        DecoratedTextContent::Keyword(k) => keyword_word(*k),
        DecoratedTextContent::Link(l) => link_text_chars(l),
        DecoratedTextContent::DecoratedText(d) => {
            let mut out: Vec<char> = Vec::new();
            let n = d.contents.len();
            let mut k: usize = 0;
            while k < n
                invariant
                    0 <= k <= n == d.contents@.len(),
                    *c == DecoratedTextContent::DecoratedText(*d),
                    spec_dtc_texts(d.contents@, 0) =~= out@ + spec_dtc_texts(
                        d.contents@,
                        k as int,
                    ),
                decreases n - k, 2int,
            {
                proof {
                    assert((*c)->DecoratedText_0 == *d);
                    assert(decreases_to!(*c => (*c)->DecoratedText_0));
                    assert(decreases_to!(*d => d.contents@[k as int].element));
                }
                let mut piece = dtc_text_chars(&d.contents[k].element);
                out.append(&mut piece);
                k += 1;
            }
            out
        },
    }
}

fn keyword_word(k: Keyword) -> (r: Vec<char>)
    ensures
        r@ == keyword_chars(k),
{
    let w = match k {
        Keyword::TODO => vec!['T', 'O', 'D', 'O'],
        Keyword::DONE => vec!['D', 'O', 'N', 'E'],
        Keyword::STARTED => vec!['S', 'T', 'A', 'R', 'T', 'E', 'D'],
        Keyword::FIXME => vec!['F', 'I', 'X', 'M', 'E'],
        Keyword::FIXED => vec!['F', 'I', 'X', 'E', 'D'],
        Keyword::XXX => vec!['X', 'X', 'X'],
    };
    proof {
        assert(w@ =~= keyword_chars(k));
    }
    w
}

fn link_text_chars(l: &Link) -> (r: Vec<char>)
    ensures
        r@ == spec_link_text(*l),
{
    let desc = match l {
        Link::Raw(rl) => {
            return crate::chars::str_to_chars(rl.uri.as_str());
        },
        Link::Wiki(w) => &w.description,
        Link::ExternalFile(e) => &e.description,
        Link::Diary(d) => &d.description,
        Link::Transclusion(t) => &t.description,
        Link::InterWiki(iw) => match iw {
            crate::elements::InterWikiLink::Indexed(il) => &il.link.description,
            crate::elements::InterWikiLink::Named(nl) => &nl.link.description,
        },
    };
    match desc {
        Some(d) => crate::chars::str_to_chars(d.text.as_str()),
        None => Vec::new(),
    }
}

impl InlineElementContainer {
    /// The plain reading of this container's elements, concatenated.
    pub fn text(&self) -> (r: String)
        ensures
            r@ == spec_container_text(self.elements@, 0),
    {
        let mut out: Vec<char> = Vec::new();
        let n = self.elements.len();
        let mut k: usize = 0;
        while k < n
            invariant
                0 <= k <= n == self.elements@.len(),
                spec_container_text(self.elements@, 0) =~= out@ + spec_container_text(
                    self.elements@,
                    k as int,
                ),
            decreases n - k,
        {
            let mut piece = elem_text_chars(&self.elements[k].element);
            out.append(&mut piece);
            k += 1;
        }
        chars_to_string(&out)
    }
}

/// The first entry in `es[k..]` whose term reads as `t`.
pub open spec fn first_term_matching(es: Seq<TermAndDefinitions>, k: int, t: Seq<char>)
    -> Option<int>
    decreases es.len() - k,
{
    if k < 0 || k >= es.len() {
        None
    } else if spec_container_text(es[k].term.element.content.elements@, 0) == t {
        Some(k)
    } else {
        first_term_matching(es, k + 1, t)
    }
}

impl DefinitionList {
    /// The definitions under the first term whose plain reading equals
    /// the given text; empty when no term reads that way.
    pub fn definitions_for_term(&self, term: &str) -> (r: Vec<&Located<Definition>>)
        ensures
            match first_term_matching(self.entries@, 0, term@) {
                Some(i) => {
                    let defs = self.entries@[i].definitions@;
                    &&& r@.len() == defs.len()
                    &&& forall|m: int| 0 <= m < r@.len() ==> *(#[trigger] r@[m]) == defs[m]
                },
                None => r@.len() == 0,
            },
    {
        let n = self.entries.len();
        let mut k: usize = 0;
        while k < n
            invariant
                0 <= k <= n == self.entries@.len(),
                first_term_matching(self.entries@, 0, term@) == first_term_matching(
                    self.entries@,
                    k as int,
                    term@,
                ),
            decreases n - k,
        {
            let entry = &self.entries[k];
            let t = entry.term.element.content.text();
            if crate::chars::str_eq(t.as_str(), term) {
                let defs = &entry.definitions;
                let dn = defs.len();
                let mut out: Vec<&Located<Definition>> = Vec::new();
                let mut m: usize = 0;
                while m < dn
                    invariant
                        0 <= m <= dn == defs@.len(),
                        out@.len() == m,
                        forall|j: int| 0 <= j < m ==> *(#[trigger] out@[j]) == defs@[j],
                    decreases dn - m,
                {
                    out.push(&defs[m]);
                    m += 1;
                }
                return out;
            }
            k += 1;
        }
        Vec::new()
    }
}

} // verus!
