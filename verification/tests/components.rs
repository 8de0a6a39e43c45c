use vimwiki::config::{HtmlConfig, HtmlRuntimeConfig, HtmlWikiConfig};
use vimwiki::elements::{
    Blockquote, BlockElement, EnhancedListItem, InlineElement, List, ListItem,
    ListItemAttributes, ListItemContent, ListItemContents, ListItemSuffix, ListItemType,
    OrderedListItemType, UnorderedListItemType,
};
use vimwiki::location::{Located, Region};
use vimwiki::opt::{log_level, mode_from_str, LogLevel, Mode};
use vimwiki::parse_str;

fn hyphen_item(text: &str) -> Located<EnhancedListItem> {
    Located::new(
        EnhancedListItem::new(
            ListItem::new(
                ListItemType::Unordered(UnorderedListItemType::Hyphen),
                ListItemSuffix::NoSuffix,
                0,
                ListItemContents::new(vec![Located::new(
                    ListItemContent::InlineContent(
                        vimwiki::elements::InlineElementContainer::new(vec![Located::new(
                            InlineElement::Text(text.to_string()),
                            Region::default(),
                        )]),
                    ),
                    Region::default(),
                )]),
            ),
            ListItemAttributes::default(),
        ),
        Region::default(),
    )
}

fn item_with_type(t: ListItemType, text: &str) -> Located<EnhancedListItem> {
    let mut it = hyphen_item(text);
    it.element.item.item_type = t;
    it
}

#[test]
fn normalize_rewrites_marker_types_to_the_first_items_type() {
    let mut list = List::new(vec![
        hyphen_item("a"),
        item_with_type(ListItemType::Ordered(OrderedListItemType::Number), "b"),
        item_with_type(ListItemType::Unordered(UnorderedListItemType::Asterisk), "c"),
    ]);
    list.normalize();
    for item in &list.items {
        assert_eq!(
            item.element.item.item_type,
            ListItemType::Unordered(UnorderedListItemType::Hyphen)
        );
    }
}

#[test]
fn normalize_is_idempotent_on_a_concrete_list() {
    let mut once = List::new(vec![
        hyphen_item("a"),
        item_with_type(ListItemType::Ordered(OrderedListItemType::Number), "b"),
    ]);
    once.normalize();
    let mut twice = List::new(vec![
        hyphen_item("a"),
        item_with_type(ListItemType::Ordered(OrderedListItemType::Number), "b"),
    ]);
    twice.normalize();
    twice.normalize();
    assert_eq!(once, twice);
}

#[test]
fn parsed_mixed_list_normalizes_to_hyphens() {
    let x = parse_str("- a\n* b\n1. c\n").unwrap();
    match x.element.elements.into_iter().next().unwrap().element {
        BlockElement::List(mut l) => {
            l.normalize();
            assert_eq!(l.items.len(), 3);
            for item in &l.items {
                assert_eq!(
                    item.element.item.item_type,
                    ListItemType::Unordered(UnorderedListItemType::Hyphen)
                );
            }
        }
        other => panic!("expected a list, got {:?}", other),
    }
}

#[test]
fn blockquote_line_groups_split_on_empty_lines() {
    let q = Blockquote::new(vec![
        "a".to_string(),
        "b".to_string(),
        "".to_string(),
        "c".to_string(),
    ]);
    assert_eq!(
        q.line_groups(),
        vec![vec!["a".to_string(), "b".to_string()], vec!["c".to_string()]]
    );
    assert_eq!(q.line_group_cnt(), 2);
}

#[test]
fn blockquote_copies_and_equality() {
    let q = Blockquote::new(vec!["x".to_string(), "y".to_string()]);
    let b = q.to_borrowed();
    assert!(q.strict_eq(&b));
    assert_eq!(b.into_owned().into_vec(), vec!["x".to_string(), "y".to_string()]);
}

#[test]
fn list_item_contents_iterators() {
    let x = parse_str("- some list item\n- some other list item\n    1. sub list item\n")
        .unwrap();
    match &x.element.elements[0].element {
        BlockElement::List(l) => {
            let second = &l.items[1].element.item.contents;
            let inline = second.inline_content_iter();
            assert_eq!(inline.len(), 1);
            match inline[0] {
                InlineElement::Text(t) => assert_eq!(t, "some other list item"),
                other => panic!("expected text, got {:?}", other),
            }
            let subs = second.sublist_iter();
            assert_eq!(subs.len(), 1);
            assert_eq!(subs[0].items.len(), 1);
            let mut copy = second.clone();
            assert_eq!(copy.inline_content_iter_mut(), vec![(0, 0)]);
            assert_eq!(copy.sublist_iter_mut(), vec![1]);
        }
        other => panic!("expected a list, got {:?}", other),
    }
}

#[test]
fn definitions_for_term_finds_the_matching_entry() {
    let x = parse_str("term:: definition\n:: another\nother:: else").unwrap();
    match &x.element.elements[0].element {
        BlockElement::DefinitionList(d) => {
            assert_eq!(d.entries.len(), 2);
            let defs = d.definitions_for_term("term");
            assert_eq!(defs.len(), 2);
            let none = d.definitions_for_term("missing");
            assert_eq!(none.len(), 0);
        }
        other => panic!("expected a definition list, got {:?}", other),
    }
}

#[test]
fn container_text_concatenates_inline_readings() {
    let x = parse_str("abc *bold* TODO").unwrap();
    match &x.element.elements[0].element {
        BlockElement::Paragraph(p) => {
            assert_eq!(p.content.text(), "abc bold TODO".to_string());
        }
        other => panic!("expected a paragraph, got {:?}", other),
    }
}

#[test]
fn path_within_strips_the_wiki_root() {
    let mut w = HtmlWikiConfig::default();
    w.path = "some/wiki".to_string();
    assert_eq!(
        w.path_within("some/wiki/path/to/file.wiki"),
        Some("path/to/file.wiki".to_string())
    );
    assert_eq!(w.path_within("some/wiki"), Some("".to_string()));
    assert_eq!(w.path_within("other/place"), None);
}

#[test]
fn path_to_root_counts_hops_back() {
    let mut w = HtmlWikiConfig::default();
    w.path = "some/wiki".to_string();
    assert_eq!(
        w.path_to_root("some/wiki/path/to/file.wiki"),
        Some("../..".to_string())
    );
    assert_eq!(w.path_to_root("some/wiki/file.wiki"), Some("".to_string()));
    assert_eq!(w.path_to_root("elsewhere/file.wiki"), None);
}

#[test]
fn get_name_or_default_replaces_spaces() {
    let mut w = HtmlWikiConfig::default();
    w.name = Some("my wiki".to_string());
    assert_eq!(w.get_name_or_default(), "my_wiki".to_string());

    let mut w2 = HtmlWikiConfig::default();
    w2.path = "home/user/notes".to_string();
    assert_eq!(w2.get_name_or_default(), "notes".to_string());

    let w3 = HtmlWikiConfig::default();
    assert_eq!(w3.get_name_or_default(), "vimwiki".to_string());
}

#[test]
fn to_relative_reference_uses_the_name() {
    let mut w = HtmlWikiConfig::default();
    w.name = Some("my wiki".to_string());
    let r = w.to_relative_reference().unwrap();
    assert_eq!(r.path().to_string(), "my_wiki");
}

#[test]
fn to_tmp_wiki_uses_the_pages_parent() {
    let rt = HtmlRuntimeConfig {
        wiki_index: None,
        page: "some/wiki/path/to/file.wiki".to_string(),
    };
    assert_eq!(rt.to_tmp_wiki().path, "some/wiki/path/to".to_string());
}

#[test]
fn config_finds_wikis_by_index_and_name() {
    let mut cfg = HtmlConfig::default();
    let mut w = HtmlWikiConfig::default();
    w.name = Some("first".to_string());
    w.path = "a".to_string();
    cfg.wikis.push(w);
    assert!(cfg.is_multi_wiki());
    assert!(cfg.find_wiki_by_index(0).is_some());
    assert!(cfg.find_wiki_by_index(1).is_none());
    assert_eq!(
        cfg.find_wiki_by_name("first").unwrap().path,
        "a".to_string()
    );
    assert!(cfg.find_wiki_by_name("second").is_none());

    cfg.runtime.wiki_index = Some(0);
    cfg.runtime.page = "a/b/c.wiki".to_string();
    assert_eq!(cfg.to_current_wiki().path, "a".to_string());
    assert_eq!(cfg.to_active_page_path_to_wiki_root(), "..".to_string());
    assert_eq!(
        cfg.as_active_page_path_within_wiki(),
        "b/c.wiki".to_string()
    );
}

#[test]
fn mode_names_parse_case_insensitively() {
    assert_eq!(mode_from_str("stdin"), Some(Mode::Stdin));
    assert_eq!(mode_from_str("HTTP"), Some(Mode::Http));
    assert_eq!(mode_from_str("Http"), Some(Mode::Http));
    assert_eq!(mode_from_str("other"), None);
}

#[test]
fn log_level_follows_quiet_and_verbosity() {
    assert_eq!(log_level(true, 3), LogLevel::Error);
    assert_eq!(log_level(false, 0), LogLevel::Info);
    assert_eq!(log_level(false, 1), LogLevel::Debug);
    assert_eq!(log_level(false, 2), LogLevel::Trace);
    assert_eq!(log_level(false, 200), LogLevel::Trace);
}

#[test]
fn default_path_html_sits_under_a_wiki_directory() {
    let p = HtmlWikiConfig::default_path_html();
    assert!(p.ends_with("/vimwiki"));
}

#[test]
fn to_relative_reference_rejects_an_invalid_name() {
    let mut w = HtmlWikiConfig::default();
    w.name = Some("%zz".to_string());
    assert!(w.to_relative_reference().is_err());
}

#[test]
fn list_item_checkboxes_carry_completion_state() {
    let x = parse_str("- [X] done\n- [ ] open\n").unwrap();
    match &x.element.elements[0].element {
        BlockElement::List(l) => {
            assert_eq!(
                l.items[0].element.attributes.todo_status,
                Some(vimwiki::elements::TodoStatus::Complete)
            );
            assert_eq!(
                l.items[1].element.attributes.todo_status,
                Some(vimwiki::elements::TodoStatus::Incomplete)
            );
        }
        other => panic!("expected a list, got {:?}", other),
    }
}

#[test]
fn preformatted_language_and_metadata() {
    let x = parse_str("{{{rust\nlet x = 1;\n}}}").unwrap();
    match &x.element.elements[0].element {
        BlockElement::Preformatted(p) => {
            assert_eq!(p.lang, Some("rust".to_string()));
            assert!(p.metadata.is_empty());
        }
        other => panic!("expected preformatted text, got {:?}", other),
    }
    let x = parse_str("{{{class=\"brush\"\ncode\n}}}").unwrap();
    match &x.element.elements[0].element {
        BlockElement::Preformatted(p) => {
            assert!(p.lang.is_none());
            assert_eq!(
                p.metadata,
                vec![("class".to_string(), "brush".to_string())]
            );
        }
        other => panic!("expected preformatted text, got {:?}", other),
    }
}

#[test]
fn math_block_environment_name() {
    let x = parse_str("{{$%align%\nx + y\n}}$").unwrap();
    match &x.element.elements[0].element {
        BlockElement::Math(m) => {
            assert_eq!(m.environment, Some("align".to_string()));
            assert_eq!(m.lines, vec!["x + y".to_string()]);
        }
        other => panic!("expected a math block, got {:?}", other),
    }
}

#[test]
fn blockquote_by_arrow_and_by_indent() {
    let x = parse_str("> quoted\n> more").unwrap();
    match &x.element.elements[0].element {
        BlockElement::Blockquote(q) => {
            assert_eq!(q.lines, vec!["quoted".to_string(), "more".to_string()]);
        }
        other => panic!("expected a blockquote, got {:?}", other),
    }
    let x = parse_str("    far indented").unwrap();
    match &x.element.elements[0].element {
        BlockElement::Blockquote(q) => {
            assert_eq!(q.lines, vec!["far indented".to_string()]);
        }
        other => panic!("expected a blockquote, got {:?}", other),
    }
}

#[test]
fn table_divider_and_span_cells() {
    let x = parse_str("|a|b|\n|---+---|\n|>| \\/ |").unwrap();
    match &x.element.elements[0].element {
        BlockElement::Table(t) => {
            assert_eq!(t.rows.len(), 3);
            assert!(matches!(t.rows[1].element, vimwiki::elements::Row::Divider));
            match &t.rows[2].element {
                vimwiki::elements::Row::Content { cells } => {
                    assert_eq!(
                        cells[0].element,
                        vimwiki::elements::Cell::Span(vimwiki::elements::CellSpan::FromLeft)
                    );
                    assert_eq!(
                        cells[1].element,
                        vimwiki::elements::Cell::Span(vimwiki::elements::CellSpan::FromAbove)
                    );
                }
                other => panic!("expected a content row, got {:?}", other),
            }
        }
        other => panic!("expected a table, got {:?}", other),
    }
}
