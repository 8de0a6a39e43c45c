use vimwiki::elements::{
    BlockElement, Cell, Comment, Date, DecoratedTextContent, Decoration, InlineElement, Keyword,
    Placeholder, Row,
};
use vimwiki::location::Position;
use vimwiki::parse_str;
use vimwiki::tree::{ElementRef, ElementTree};

fn chars(s: &str) -> Vec<char> {
    s.chars().collect()
}

fn text_of(e: &InlineElement) -> &str {
    match e {
        InlineElement::Text(t) => t.as_str(),
        _ => panic!("expected plain text"),
    }
}

#[test]
fn vimwiki_page() {
    let x = parse_str("some text").unwrap();
    assert_eq!(x.element.elements.len(), 1);
    assert_eq!(x.element.comments.len(), 0);
    match &x.element.elements[0].element {
        BlockElement::Paragraph(p) => {
            assert_eq!(p.content.elements.len(), 1);
            assert_eq!(text_of(&p.content.elements[0].element), "some text");
        }
        other => panic!("expected a paragraph, got {:?}", other),
    }
}

#[test]
fn vimwiki_paragraph() {
    let x = parse_str("some text").unwrap();
    match &x.element.elements[0].element {
        BlockElement::Paragraph(p) => {
            assert_eq!(text_of(&p.content.elements[0].element), "some text");
        }
        other => panic!("expected a paragraph, got {:?}", other),
    }
}

#[test]
fn vimwiki_header() {
    let x = parse_str("= header =").unwrap();
    match &x.element.elements[0].element {
        BlockElement::Header(h) => {
            assert_eq!(h.level, 1);
            assert!(!h.centered);
            assert_eq!(h.content.elements.len(), 1);
            assert_eq!(text_of(&h.content.elements[0].element), "header");
        }
        other => panic!("expected a header, got {:?}", other),
    }
}

#[test]
fn vimwiki_blockquote() {
    let x = parse_str("> some text").unwrap();
    match &x.element.elements[0].element {
        BlockElement::Blockquote(q) => {
            assert_eq!(q.lines, vec!["some text".to_string()]);
        }
        other => panic!("expected a blockquote, got {:?}", other),
    }
}

#[test]
fn vimwiki_comment() {
    let x = parse_str("%% some comment").unwrap();
    assert_eq!(x.element.elements.len(), 0);
    assert_eq!(x.element.comments.len(), 1);
    match &x.element.comments[0].element {
        Comment::Line(lc) => assert_eq!(lc.text, " some comment".to_string()),
        other => panic!("expected a line comment, got {:?}", other),
    }
}

#[test]
fn vimwiki_line_comment() {
    let x = parse_str("%% some comment").unwrap();
    match &x.element.comments[0].element {
        Comment::Line(lc) => assert_eq!(lc.text, " some comment".to_string()),
        other => panic!("expected a line comment, got {:?}", other),
    }
}

#[test]
fn vimwiki_multi_line_comment() {
    let x = parse_str("%%+ some comment +%%").unwrap();
    match &x.element.comments[0].element {
        Comment::MultiLine(mc) => {
            assert_eq!(mc.lines, vec![" some comment ".to_string()]);
        }
        other => panic!("expected a multi-line comment, got {:?}", other),
    }
}

#[test]
fn vimwiki_definition_list() {
    let x = parse_str("term:: definition").unwrap();
    match &x.element.elements[0].element {
        BlockElement::DefinitionList(d) => {
            assert_eq!(d.entries.len(), 1);
            let entry = &d.entries[0];
            assert_eq!(
                text_of(&entry.term.element.content.elements[0].element),
                "term"
            );
            assert_eq!(entry.definitions.len(), 1);
            assert_eq!(
                text_of(&entry.definitions[0].element.content.elements[0].element),
                "definition"
            );
        }
        other => panic!("expected a definition list, got {:?}", other),
    }
}

#[test]
fn vimwiki_divider() {
    let x = parse_str("----").unwrap();
    assert!(matches!(
        x.element.elements[0].element,
        BlockElement::Divider(_)
    ));
}

#[test]
fn vimwiki_list() {
    let x = parse_str("- some list item\n- some other list item\n    1. sub list item\n")
        .unwrap();
    match &x.element.elements[0].element {
        BlockElement::List(l) => {
            assert_eq!(l.items.len(), 2);
            let first = &l.items[0].element;
            assert_eq!(first.item.depth, 0);
            assert_eq!(first.item.contents.contents.len(), 1);
            let second = &l.items[1].element;
            assert_eq!(second.item.contents.contents.len(), 2);
            match &second.item.contents.contents[1].element {
                vimwiki::elements::ListItemContent::List(sub) => {
                    assert_eq!(sub.items.len(), 1);
                    assert_eq!(sub.items[0].element.item.depth, 4);
                }
                other => panic!("expected a sublist, got {:?}", other),
            }
        }
        other => panic!("expected a list, got {:?}", other),
    }
}

#[test]
fn vimwiki_list_raw() {
    let x = parse_str("- some list item").unwrap();
    match &x.element.elements[0].element {
        BlockElement::List(l) => {
            assert_eq!(l.items.len(), 1);
            match &l.items[0].element.item.contents.contents[0].element {
                vimwiki::elements::ListItemContent::InlineContent(c) => {
                    assert_eq!(text_of(&c.elements[0].element), "some list item");
                }
                other => panic!("expected inline content, got {:?}", other),
            }
        }
        other => panic!("expected a list, got {:?}", other),
    }
}

#[test]
fn vimwiki_math_inline() {
    let seg = chars("$math$");
    let (e, end) = vimwiki::inline_component(&seg, 0, 0, 1);
    assert_eq!(end, seg.len());
    match e.element {
        InlineElement::Math(m) => assert_eq!(m.formula, "math".to_string()),
        other => panic!("expected inline math, got {:?}", other),
    }
}

#[test]
fn vimwiki_math_block() {
    let x = parse_str("{{$\nmath\n}}$").unwrap();
    match &x.element.elements[0].element {
        BlockElement::Math(m) => {
            assert_eq!(m.lines, vec!["math".to_string()]);
            assert!(m.environment.is_none());
        }
        other => panic!("expected a math block, got {:?}", other),
    }
}

#[test]
fn vimwiki_math_block_raw() {
    let x = parse_str("{{$\n    math\n}}$").unwrap();
    match &x.element.elements[0].element {
        BlockElement::Math(m) => {
            assert_eq!(m.lines, vec!["    math".to_string()]);
            assert!(m.environment.is_none());
        }
        other => panic!("expected a math block, got {:?}", other),
    }
}

#[test]
fn vimwiki_placeholder() {
    let x = parse_str("%date 2012-03-05").unwrap();
    match &x.element.elements[0].element {
        BlockElement::Placeholder(p) => {
            assert_eq!(*p, Placeholder::Date(Date::new(2012, 3, 5)));
        }
        other => panic!("expected a placeholder, got {:?}", other),
    }
    let x = parse_str("%nohtml").unwrap();
    match &x.element.elements[0].element {
        BlockElement::Placeholder(p) => assert_eq!(*p, Placeholder::NoHtml),
        other => panic!("expected a placeholder, got {:?}", other),
    }
    let x = parse_str("%other some text").unwrap();
    match &x.element.elements[0].element {
        BlockElement::Placeholder(p) => {
            assert_eq!(
                *p,
                Placeholder::Other {
                    name: "other".to_string(),
                    value: "some text".to_string(),
                }
            );
        }
        other => panic!("expected a placeholder, got {:?}", other),
    }
    let x = parse_str("%template my_template").unwrap();
    match &x.element.elements[0].element {
        BlockElement::Placeholder(p) => {
            assert_eq!(*p, Placeholder::Template("my_template".to_string()));
        }
        other => panic!("expected a placeholder, got {:?}", other),
    }
    let x = parse_str("%title some text").unwrap();
    match &x.element.elements[0].element {
        BlockElement::Placeholder(p) => {
            assert_eq!(*p, Placeholder::Title("some text".to_string()));
        }
        other => panic!("expected a placeholder, got {:?}", other),
    }
}

#[test]
fn vimwiki_preformatted_text() {
    let x = parse_str("{{{\nsome code\n}}}").unwrap();
    match &x.element.elements[0].element {
        BlockElement::Preformatted(p) => {
            assert!(p.lang.is_none());
            assert!(p.metadata.is_empty());
            assert_eq!(p.lines, vec!["some code".to_string()]);
        }
        other => panic!("expected preformatted text, got {:?}", other),
    }
}

#[test]
fn vimwiki_preformatted_text_raw() {
    let x = parse_str("{{{\n    some code\n}}}").unwrap();
    match &x.element.elements[0].element {
        BlockElement::Preformatted(p) => {
            assert_eq!(p.lines, vec!["    some code".to_string()]);
        }
        other => panic!("expected preformatted text, got {:?}", other),
    }
}

#[test]
fn vimwiki_table() {
    let x = parse_str("|cell|").unwrap();
    match &x.element.elements[0].element {
        BlockElement::Table(t) => {
            assert!(!t.centered);
            assert_eq!(t.rows.len(), 1);
            match &t.rows[0].element {
                Row::Content { cells } => {
                    assert_eq!(cells.len(), 1);
                    match &cells[0].element {
                        Cell::Content(c) => {
                            assert_eq!(text_of(&c.elements[0].element), "cell");
                        }
                        other => panic!("expected cell content, got {:?}", other),
                    }
                }
                other => panic!("expected a content row, got {:?}", other),
            }
        }
        other => panic!("expected a table, got {:?}", other),
    }
}

#[test]
fn vimwiki_tags() {
    let x = parse_str(":tag:").unwrap();
    match &x.element.elements[0].element {
        BlockElement::Tags(t) => assert_eq!(t.values, vec!["tag".to_string()]),
        other => panic!("expected tags, got {:?}", other),
    }
}

#[test]
fn vimwiki_decorated_text() {
    let seg = chars("*some text*");
    let (e, end) = vimwiki::inline_component(&seg, 0, 0, 1);
    assert_eq!(end, seg.len());
    match e.element {
        InlineElement::DecoratedText(d) => {
            assert_eq!(d.decoration, Decoration::Bold);
            assert_eq!(d.contents.len(), 1);
            assert_eq!(
                d.contents[0].element,
                DecoratedTextContent::Text("some text".to_string())
            );
        }
        other => panic!("expected decorated text, got {:?}", other),
    }
}

#[test]
fn vimwiki_keyword() {
    let seg = chars("TODO");
    let (e, end) = vimwiki::inline_component(&seg, 0, 0, 1);
    assert_eq!(end, seg.len());
    match e.element {
        InlineElement::Keyword(k) => assert_eq!(k, Keyword::TODO),
        other => panic!("expected a keyword, got {:?}", other),
    }
}

#[test]
fn vimwiki_inline_element_container() {
    let seg = chars("some text");
    let c = vimwiki::inline_component_container(&seg, 0, 1);
    assert_eq!(c.elements.len(), 1);
    assert_eq!(text_of(&c.elements[0].element), "some text");
}

#[test]
fn vimwiki_inline_element() {
    let seg = chars("some text");
    let (e, end) = vimwiki::inline_component(&seg, 0, 0, 1);
    assert_eq!(end, seg.len());
    assert_eq!(text_of(&e.element), "some text");
}

#[test]
fn blocks_partition_the_whole_input() {
    // every line of the input belongs to exactly one block: header,
    // blank, paragraph (two lines), divider
    let x = parse_str("= h =\n\nline one\nline two\n----").unwrap();
    let blocks = &x.element.elements;
    assert_eq!(blocks.len(), 4);
    let mut next_line = 1;
    for b in blocks.iter() {
        assert_eq!(b.region.start.line, next_line);
        assert!(b.region.end.line >= b.region.start.line);
        next_line = b.region.end.line + 1;
    }
    assert_eq!(next_line, 6);
}

#[test]
fn syntax_error_reports_first_unconsumed_position() {
    // a carriage return with no newline after it cannot be consumed by
    // any rule; the error points at the start of its line
    let err = parse_str("good line\nbad\rline").unwrap_err();
    assert_eq!(err.position, Position::new(2, 1));
}

#[test]
fn deepest_node_inside_decorated_paragraph() {
    let x = parse_str("abc *bold*").unwrap();
    let tree = ElementTree::from_page(x.element);

    // position on top of "bold"
    let node = tree.find_deepest_at(Position::new(1, 7)).unwrap();
    assert_eq!(
        *node.as_inner(),
        ElementRef::Inline(InlineElement::Text("bold".to_string()))
    );

    let parent = tree.parent_for(node).expect("missing decorated parent");
    match parent.as_inner() {
        ElementRef::Inline(InlineElement::DecoratedText(d)) => {
            assert_eq!(d.decoration, Decoration::Bold);
        }
        other => panic!("expected decorated text, got {:?}", other),
    }

    let grandparent = tree.parent_for(parent).expect("missing paragraph parent");
    assert!(matches!(
        grandparent.as_inner(),
        ElementRef::Block(BlockElement::Paragraph(_))
    ));
    assert!(grandparent.is_root());
}

#[test]
fn empty_input_gives_empty_page() {
    let x = parse_str("").unwrap();
    assert_eq!(x.element.elements.len(), 0);
    assert_eq!(x.element.comments.len(), 0);
    assert_eq!(x.region.start, Position::new(1, 1));
    assert_eq!(x.region.end, Position::new(1, 1));
}

#[test]
fn unrecognized_line_is_kept_verbatim() {
    // a lone stray percent line is no placeholder, comment or paragraph
    let x = parse_str("%").unwrap();
    match &x.element.elements[0].element {
        BlockElement::UnrecognizedLine(t) => assert_eq!(t, "%"),
        other => panic!("expected an unrecognized line, got {:?}", other),
    }
}
