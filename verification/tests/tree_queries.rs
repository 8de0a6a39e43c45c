use vimwiki::elements::{
    BlockElement, DecoratedText, DecoratedTextContent, Decoration, Divider, InlineElement,
    InlineElementContainer, Page, Paragraph,
};
use vimwiki::location::{Located, Position, Region};
use vimwiki::tree::{ElementNode, ElementRef, ElementTree};

fn test_page() -> Page {
    Page::new(
        vec![
            Located::new(
                BlockElement::Divider(Divider),
                Region::from_parts(1, 1, 1, 3),
            ),
            Located::new(
                BlockElement::Paragraph(Paragraph::new(InlineElementContainer::new(vec![
                    Located::new(
                        InlineElement::Text("abc".to_string()),
                        Region::from_parts(2, 1, 2, 3),
                    ),
                    Located::new(
                        InlineElement::DecoratedText(DecoratedText::new(
                            vec![Located::new(
                                DecoratedTextContent::Text("bold".to_string()),
                                Region::from_parts(2, 4, 2, 7),
                            )],
                            Decoration::Bold,
                        )),
                        Region::from_parts(2, 4, 2, 7),
                    ),
                ]))),
                Region::from_parts(2, 1, 2, 7),
            ),
        ],
        vec![],
    )
}

#[test]
fn find_deepest_at_should_return_deepest_node_at_position() {
    let tree = ElementTree::from_page(test_page());

    // Cursor on top of bold text in paragraph
    let node = tree.find_deepest_at(Position::new(2, 4)).unwrap();
    assert_eq!(
        *node.as_inner(),
        ElementRef::Inline(InlineElement::Text("bold".to_string()))
    );
}

#[test]
fn find_deepest_at_should_return_none_if_no_node_at_position() {
    let tree = ElementTree::from_page(test_page());

    assert!(tree.find_deepest_at(Position::new(999, 999)).is_none());
}

#[test]
fn find_root_at_should_return_root_node_at_position() {
    let tree = ElementTree::from_page(test_page());

    // Cursor on top of paragraph
    let node = tree.find_root_at(Position::new(2, 4)).unwrap();
    assert_eq!(
        *node.as_inner(),
        ElementRef::Block(tree.page().elements[1].element.clone())
    );
}

#[test]
fn find_root_at_should_return_none_if_no_root_node_at_position() {
    let tree = ElementTree::from_page(test_page());

    assert!(tree.find_root_at(Position::new(999, 999)).is_none());
}

#[test]
fn root_nodes_should_return_all_root_level_nodes() {
    let tree = ElementTree::from_page(test_page());

    assert_eq!(
        tree.root_nodes()
            .iter()
            .map(|node| node.as_inner().clone())
            .collect::<Vec<ElementRef>>(),
        vec![
            ElementRef::Block(tree.page().elements[0].element.clone()),
            ElementRef::Block(tree.page().elements[1].element.clone()),
        ],
    );
}

#[test]
fn root_for_should_return_root_of_given_node() {
    let tree = ElementTree::from_page(test_page());

    // Get a child at the very bottom of paragraph -> bold -> text
    let node = tree.find_deepest_at(Position::new(2, 4)).unwrap();

    // Verify root node loaded (this is the paragraph)
    let root = tree.root_for(node);

    assert_eq!(root, tree.root_nodes()[1]);
}

#[test]
fn parent_for_should_return_parent_of_given_node() {
    let tree = ElementTree::from_page(test_page());

    // Get a child at the very bottom of paragraph -> bold -> text
    let node = tree.find_deepest_at(Position::new(2, 4)).unwrap();

    // Verify parent node loaded (this is the bold text container)
    let parent = tree.parent_for(node).expect("Missing parent");

    assert_eq!(parent, tree.children_for(tree.root_nodes()[1])[1]);
}

#[test]
fn parent_for_should_return_none_if_given_node_is_root() {
    let tree = ElementTree::from_page(test_page());

    assert!(tree.parent_for(tree.root_nodes()[1]).is_none());
}

#[test]
fn children_for_should_return_all_children_of_given_node() {
    let tree = ElementTree::from_page(test_page());

    // Load paragraph children, which should be text and bold text
    let children = tree
        .children_for(tree.root_nodes()[1])
        .iter()
        .map(|node| node.as_inner().clone())
        .collect::<Vec<ElementRef>>();

    let expected = match &tree.page().elements[1].element {
        BlockElement::Paragraph(x) => vec![
            ElementRef::Inline(x.content.elements[0].element.clone()),
            ElementRef::Inline(x.content.elements[1].element.clone()),
        ],
        _ => unreachable!(),
    };
    assert_eq!(children, expected);
}

#[test]
fn siblings_for_should_return_all_siblings_of_given_node() {
    let tree = ElementTree::from_page(test_page());

    // Get paragraph -> text, which has a sibling of paragraph -> bold text
    let node = tree.find_deepest_at(Position::new(2, 2)).unwrap();

    let siblings = tree
        .siblings_for(node)
        .iter()
        .map(|node| node.as_inner().clone())
        .collect::<Vec<ElementRef>>();

    let expected = match &tree.page().elements[1].element {
        BlockElement::Paragraph(x) => {
            vec![ElementRef::Inline(x.content.elements[1].element.clone())]
        }
        _ => unreachable!(),
    };
    assert_eq!(siblings, expected);
}

#[test]
fn siblings_for_should_return_all_root_sibling_nodes_of_given_root_node() {
    let tree = ElementTree::from_page(test_page());

    let siblings = tree
        .siblings_for(tree.root_nodes()[1])
        .iter()
        .map(|node| node.as_inner().clone())
        .collect::<Vec<ElementRef>>();

    assert_eq!(
        siblings,
        vec![ElementRef::Block(tree.page().elements[0].element.clone())]
    );
}

#[test]
fn id_should_return_element_id_for_node() {
    let node = ElementNode {
        root_id: 0,
        parent_id: None,
        element_id: 999,
        element: ElementRef::Block(BlockElement::Divider(Divider)),
        region: Region::default(),
        children_ids: vec![],
    };

    assert_eq!(node.id(), 999);
}

#[test]
fn is_root_should_return_true_if_node_represents_root_element() {
    let node = ElementNode {
        root_id: 999,
        parent_id: None,
        element_id: 999,
        element: ElementRef::Block(BlockElement::Divider(Divider)),
        region: Region::default(),
        children_ids: vec![],
    };

    assert!(node.is_root());
}

#[test]
fn is_root_should_return_false_if_node_does_not_represent_root_element() {
    let node = ElementNode {
        root_id: 0,
        parent_id: None,
        element_id: 999,
        element: ElementRef::Block(BlockElement::Divider(Divider)),
        region: Region::default(),
        children_ids: vec![],
    };

    assert!(!node.is_root());
}

#[test]
fn region_should_return_region_of_underlying_element() {
    let node = ElementNode {
        root_id: 0,
        parent_id: None,
        element_id: 0,
        element: ElementRef::Block(BlockElement::Divider(Divider)),
        region: Region::from_parts(1, 2, 3, 4),
        children_ids: vec![],
    };

    assert_eq!(*node.region(), Region::from_parts(1, 2, 3, 4));
}
