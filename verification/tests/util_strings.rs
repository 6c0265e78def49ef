use artigo::filters::Filter;
use artigo::search::{IngestionType, SearchGraph};
use artigo::util::{Chunk, StringUtils};

#[test]
fn uppercase_filter_changes_the_text() {
    let out = Filter::Uppercase.apply_on("ventura".to_string());
    assert_eq!(out, "VENTURA".to_string());
}

#[test]
fn lowercase_filter_changes_the_text() {
    let out = Filter::Lowercase.apply_on("VENTURA".to_string());
    assert_eq!(out, "ventura".to_string());
}

#[test]
fn starts_then_ends_with_checks_both_ends() {
    let s = "{{ nome }}".to_string();
    assert!(s.starts_then_ends_with("{{", "}}"));
    assert!(!s.starts_then_ends_with("{%", "}}"));
    assert!(!s.starts_then_ends_with("{{", "%}"));
}

#[test]
fn without_removes_every_occurrence() {
    let s = "{{ nome }}".to_string();
    assert_eq!(s.without("{{"), " nome }}".to_string());
    assert_eq!(s.without("{{").without("}}"), " nome ".to_string());
    assert_eq!("aaa".to_string().without("aa"), "a".to_string());
}

#[test]
fn chunks_interleave_in_source_order() {
    let s = "Your name is {{ nome }}.".to_string();
    let chunks = s.split_in_chunks_inclusive("{", "}").unwrap();
    assert_eq!(chunks.len(), 3);
    assert!(matches!(&chunks[0], Chunk::Literal(t) if t == "Your name is "));
    assert!(matches!(&chunks[1], Chunk::Code(t) if t == " nome "));
    assert!(matches!(&chunks[2], Chunk::Literal(t) if t == "."));
}

#[test]
fn unterminated_chunk_fails_to_split() {
    let s = "Hello {{ name".to_string();
    assert!(s.split_in_chunks_inclusive("{", "}").is_err());
}

#[test]
fn a_new_search_graph_is_empty() {
    let graph = SearchGraph::new(IngestionType::FileSystem("docs".to_string()));
    let _ = graph;
    let _ = SearchGraph::text_query("anything".to_string());
}
