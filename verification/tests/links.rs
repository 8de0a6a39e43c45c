use vimwiki::elements::{
    Date, Description, ExternalFileLinkScheme, InlineElement, InterWikiLink, Link,
};
use vimwiki::{external_file_link, inline_component};

fn chars(s: &str) -> Vec<char> {
    s.chars().collect()
}

fn parse_link(s: &str) -> Link {
    let seg = chars(s);
    let (e, end) = inline_component(&seg, 0, 0, 1);
    assert_eq!(end, seg.len(), "Did not consume link");
    match e.element {
        InlineElement::Link(l) => l,
        other => panic!("expected a link, got {:?}", other),
    }
}

#[test]
fn external_link_should_support_absolute_path_with_no_scheme() {
    let input = chars("[[//absolute_path]]");
    let (link, end) = external_file_link(&input, 0).unwrap();
    assert_eq!(end, input.len(), "Did not consume link");
    assert_eq!(link.scheme, ExternalFileLinkScheme::Absolute);
    assert_eq!(link.path, "absolute_path".to_string());
    assert_eq!(link.description, None);

    let input = chars("[[///tmp/in_root_tmp]]");
    let (link, end) = external_file_link(&input, 0).unwrap();
    assert_eq!(end, input.len(), "Did not consume link");
    assert_eq!(link.scheme, ExternalFileLinkScheme::Absolute);
    assert_eq!(link.path, "/tmp/in_root_tmp".to_string());
    assert_eq!(link.description, None);

    let input = chars("[[//~/in_home_dir]]");
    let (link, end) = external_file_link(&input, 0).unwrap();
    assert_eq!(end, input.len(), "Did not consume link");
    assert_eq!(link.scheme, ExternalFileLinkScheme::Absolute);
    assert_eq!(link.path, "~/in_home_dir".to_string());
    assert_eq!(link.description, None);

    let input = chars("[[//$HOME/in_home_dir]]");
    let (link, end) = external_file_link(&input, 0).unwrap();
    assert_eq!(end, input.len(), "Did not consume link");
    assert_eq!(link.scheme, ExternalFileLinkScheme::Absolute);
    assert_eq!(link.path, "$HOME/in_home_dir".to_string());
    assert_eq!(link.description, None);
}

#[test]
fn external_link_should_support_file_scheme() {
    let input = chars("[[file:/home/somebody/a/b/c/music.mp3]]");
    let (link, end) = external_file_link(&input, 0).unwrap();
    assert_eq!(end, input.len(), "Did not consume link");
    assert_eq!(link.scheme, ExternalFileLinkScheme::File);
    assert_eq!(link.path, "/home/somebody/a/b/c/music.mp3".to_string());
    assert_eq!(link.description, None);

    let input = chars("[[file:C:/Users/somebody/d/e/f/music.mp3]]");
    let (link, end) = external_file_link(&input, 0).unwrap();
    assert_eq!(end, input.len(), "Did not consume link");
    assert_eq!(link.scheme, ExternalFileLinkScheme::File);
    assert_eq!(link.path, "C:/Users/somebody/d/e/f/music.mp3".to_string());
    assert_eq!(link.description, None);

    let input = chars("[[file:~/a/b/c/music.mp3]]");
    let (link, end) = external_file_link(&input, 0).unwrap();
    assert_eq!(end, input.len(), "Did not consume link");
    assert_eq!(link.scheme, ExternalFileLinkScheme::File);
    assert_eq!(link.path, "~/a/b/c/music.mp3".to_string());
    assert_eq!(link.description, None);

    let input = chars("[[file:../assets/data.csv|Important Data]]");
    let (link, end) = external_file_link(&input, 0).unwrap();
    assert_eq!(end, input.len(), "Did not consume link");
    assert_eq!(link.scheme, ExternalFileLinkScheme::File);
    assert_eq!(link.path, "../assets/data.csv".to_string());
    assert_eq!(
        link.description,
        Some(Description::new("Important Data".to_string()))
    );

    let input = chars("[[file:/home/user/documents/|Link to a directory]]");
    let (link, end) = external_file_link(&input, 0).unwrap();
    assert_eq!(end, input.len(), "Did not consume link");
    assert_eq!(link.scheme, ExternalFileLinkScheme::File);
    assert_eq!(link.path, "/home/user/documents/".to_string());
    assert_eq!(
        link.description,
        Some(Description::new("Link to a directory".to_string()))
    );
}

#[test]
fn external_link_should_support_local_scheme() {
    let input = chars("[[local:C:/Users/somebody/d/e/f/music.mp3]]");
    let (link, end) = external_file_link(&input, 0).unwrap();
    assert_eq!(end, input.len(), "Did not consume link");
    assert_eq!(link.scheme, ExternalFileLinkScheme::Local);
    assert_eq!(link.path, "C:/Users/somebody/d/e/f/music.mp3".to_string());
    assert_eq!(link.description, None);
}

#[test]
fn vimwiki_link() {
    match parse_link("[[link]]") {
        Link::Wiki(w) => {
            assert_eq!(w.path, "link".to_string());
            assert_eq!(w.anchor, None);
            assert_eq!(w.description, None);
        }
        other => panic!("expected a wiki link, got {:?}", other),
    }
}

#[test]
fn vimwiki_wiki_link() {
    match parse_link("[[link]]") {
        Link::Wiki(w) => assert_eq!(w.path, "link".to_string()),
        other => panic!("expected a wiki link, got {:?}", other),
    }
}

#[test]
fn vimwiki_diary_link() {
    match parse_link("[[diary:2012-03-05]]") {
        Link::Diary(d) => {
            assert_eq!(d.date, Date::new(2012, 3, 5));
            assert_eq!(d.description, None);
        }
        other => panic!("expected a diary link, got {:?}", other),
    }
}

#[test]
fn vimwiki_external_file_link() {
    match parse_link("[[file:path/to/file]]") {
        Link::ExternalFile(e) => {
            assert_eq!(e.scheme, ExternalFileLinkScheme::File);
            assert_eq!(e.path, "path/to/file".to_string());
            assert_eq!(e.description, None);
        }
        other => panic!("expected an external file link, got {:?}", other),
    }
}

#[test]
fn external_file_link_with_description() {
    match parse_link("[[file:a/b|Desc]]") {
        Link::ExternalFile(e) => {
            assert_eq!(e.scheme, ExternalFileLinkScheme::File);
            assert_eq!(e.path, "a/b".to_string());
            assert_eq!(e.description, Some(Description::new("Desc".to_string())));
        }
        other => panic!("expected an external file link, got {:?}", other),
    }
}

#[test]
fn vimwiki_raw_link() {
    match parse_link("https://example.com") {
        Link::Raw(r) => assert_eq!(r.uri, "https://example.com".to_string()),
        other => panic!("expected a raw link, got {:?}", other),
    }
}

#[test]
fn vimwiki_transclusion_link() {
    match parse_link("{{https://example.com/img.jpg}}") {
        Link::Transclusion(t) => {
            assert_eq!(t.uri, "https://example.com/img.jpg".to_string());
            assert_eq!(t.description, None);
            assert!(t.properties.is_empty());
        }
        other => panic!("expected a transclusion link, got {:?}", other),
    }
}

#[test]
fn vimwiki_inter_wiki_link() {
    match parse_link("[[wiki1:link]]") {
        Link::InterWiki(InterWikiLink::Indexed(il)) => {
            assert_eq!(il.index, 1);
            assert_eq!(il.link.path, "link".to_string());
        }
        other => panic!("expected an indexed inter-wiki link, got {:?}", other),
    }
}

#[test]
fn named_inter_wiki_link() {
    match parse_link("[[wn.My Name:link]]") {
        Link::InterWiki(InterWikiLink::Named(nl)) => {
            assert_eq!(nl.name, "My Name".to_string());
            assert_eq!(nl.link.path, "link".to_string());
        }
        other => panic!("expected a named inter-wiki link, got {:?}", other),
    }
}

#[test]
fn wiki_link_with_anchor_and_description() {
    match parse_link("[[path/to/page#sub#anchor|A page]]") {
        Link::Wiki(w) => {
            assert_eq!(w.path, "path/to/page".to_string());
            assert_eq!(w.anchor, Some("sub#anchor".to_string()));
            assert_eq!(w.description, Some(Description::new("A page".to_string())));
        }
        other => panic!("expected a wiki link, got {:?}", other),
    }
}

#[test]
fn diary_link_with_invalid_date_is_a_wiki_link() {
    match parse_link("[[diary:not-a-date]]") {
        Link::Wiki(w) => assert_eq!(w.path, "diary:not-a-date".to_string()),
        other => panic!("expected a wiki link, got {:?}", other),
    }
}

#[test]
fn external_link_rejects_an_empty_description() {
    // a pipe must be followed by a non-empty description
    let input = chars("[[file:a|]]");
    assert!(external_file_link(&input, 0).is_none());
}

#[test]
fn external_link_rejects_a_second_pipe() {
    // the description may not contain a further pipe
    let input = chars("[[file:a|b|c]]");
    assert!(external_file_link(&input, 0).is_none());
}
