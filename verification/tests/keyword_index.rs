use sorcerer::index::{Document, IndexError, IndexStore, SearchQuery};
use sorcerer::keyword::{coverage_of, snippet_from, title_from, KeywordIndex};
use sorcerer::score::Score;

fn doc(id: &str, content: &str, source: &str, trust: u32) -> Document {
    let mut d = Document::with_id(id.to_string(), content, source, 1_000);
    d.metadata.trust_score = Score::new(trust).unwrap();
    d
}

fn hex_or_hyphen(id: &str) -> bool {
    id.len() == 36
        && id.chars().enumerate().all(|(i, c)| {
            if i == 8 || i == 13 || i == 18 || i == 23 {
                c == '-'
            } else {
                c.is_ascii_digit() || ('a'..='f').contains(&c)
            }
        })
}

#[test]
fn new_document_has_defaults() {
    let d = Document::new("Rust ownership model", "wiki");
    assert!(hex_or_hyphen(&d.id));
    assert_eq!(d.id.as_bytes()[14], b'4');
    assert_eq!(d.content, "Rust ownership model");
    assert_eq!(d.metadata.source, "wiki");
    assert_eq!(d.metadata.created_at, d.metadata.updated_at);
    assert!(d.metadata.created_at > 1_600_000_000_000);
    assert_eq!(d.metadata.trust_score.millionths(), 500_000);
    assert!(d.metadata.tags.is_empty());
    assert!(d.embeddings.is_none());
    assert!(d.entities.is_empty());
}

#[test]
fn new_documents_get_different_identifiers() {
    let a = Document::new("a", "s");
    let b = Document::new("a", "s");
    assert_ne!(a.id, b.id);
}

#[test]
fn index_query_defaults() {
    let q = SearchQuery::new("ownership");
    assert_eq!(q.text, "ownership");
    assert_eq!(q.limit, 10);
    assert!(q.min_trust_score.is_none());
    assert!(q.vector.is_none());
}

#[test]
fn insert_then_get() {
    let mut idx = KeywordIndex::new();
    let id = idx.insert(doc("d1", "alpha", "wiki", 900_000)).unwrap();
    assert_eq!(id, "d1");
    assert_eq!(idx.len(), 1);
    let got = idx.get("d1").unwrap().unwrap();
    assert_eq!(got.id, "d1");
    assert_eq!(got.content, "alpha");
    assert_eq!(got.metadata.source, "wiki");
    assert_eq!(got.metadata.trust_score.millionths(), 900_000);
    assert!(idx.get("d2").unwrap().is_none());
}

#[test]
fn insert_assigns_an_identifier_where_there_is_none() {
    let mut idx = KeywordIndex::new();
    let id = idx.insert(doc("", "alpha", "wiki", 900_000)).unwrap();
    assert!(hex_or_hyphen(&id));
    let got = idx.get(&id).unwrap().unwrap();
    assert_eq!(got.id, id);
    assert_eq!(got.content, "alpha");
}

#[test]
fn insert_overwrites_the_same_identifier() {
    let mut idx = KeywordIndex::new();
    idx.insert(doc("d1", "alpha", "wiki", 900_000)).unwrap();
    idx.insert(doc("d2", "beta", "wiki", 900_000)).unwrap();
    idx.insert(doc("d1", "gamma", "blog", 100_000)).unwrap();
    assert_eq!(idx.len(), 2);
    let got = idx.get("d1").unwrap().unwrap();
    assert_eq!(got.content, "gamma");
    assert_eq!(got.metadata.source, "blog");
    let hits = idx.search(SearchQuery::new("a")).unwrap();
    let ids: Vec<&str> = hits.iter().map(|h| h.id.as_str()).collect();
    assert_eq!(ids, vec!["d1", "d2"]);
}

#[test]
fn delete_is_idempotent() {
    let mut idx = KeywordIndex::new();
    idx.insert(doc("d1", "alpha", "wiki", 900_000)).unwrap();
    idx.insert(doc("d2", "beta", "wiki", 900_000)).unwrap();
    assert!(idx.delete("d1").unwrap());
    assert!(!idx.delete("d1").unwrap());
    assert!(idx.get("d1").unwrap().is_none());
    assert_eq!(idx.len(), 1);
    assert!(idx.get("d2").unwrap().is_some());
}

#[test]
fn delete_of_a_missing_identifier_is_no_error() {
    let mut idx = KeywordIndex::new();
    assert!(!idx.delete("nothing").unwrap());
    assert_eq!(idx.len(), 0);
}

#[test]
fn search_finds_documents_that_hold_the_text() {
    let mut idx = KeywordIndex::new();
    idx.insert(doc("d1", "Rust ownership model", "wiki", 900_000)).unwrap();
    idx.insert(doc("d2", "Garbage collection", "blog", 800_000)).unwrap();
    idx.insert(doc("d3", "ownership and borrowing", "book", 200_000)).unwrap();
    let hits = idx.search(SearchQuery::new("ownership")).unwrap();
    assert_eq!(hits.len(), 2);
    assert_eq!(hits[0].id, "d1");
    assert_eq!(hits[0].title, "Rust ownership model");
    assert_eq!(hits[0].content, "Rust ownership model");
    assert_eq!(hits[0].source, "wiki");
    assert_eq!(hits[0].confidence.millionths(), 450_000);
    assert_eq!(hits[0].trust_score.millionths(), 900_000);
    assert_eq!(hits[0].metadata.updated_at, 1_000);
    assert_eq!(hits[1].id, "d3");
    assert_eq!(hits[1].trust_score.millionths(), 200_000);
}

#[test]
fn search_without_a_match_is_empty_and_no_error() {
    let mut idx = KeywordIndex::new();
    idx.insert(doc("d1", "Rust ownership model", "wiki", 900_000)).unwrap();
    let hits = idx.search(SearchQuery::new("lifetimes")).unwrap();
    assert!(hits.is_empty());
}

#[test]
fn search_refuses_an_empty_text() {
    let idx = KeywordIndex::new();
    match idx.search(SearchQuery::new("")) {
        Err(IndexError::QueryError(msg)) => assert_eq!(msg, "empty query text"),
        other => panic!("{:?}", other),
    }
}

#[test]
fn search_honours_limit_and_minimum_trust() {
    let mut idx = KeywordIndex::new();
    idx.insert(doc("d1", "one fish", "a", 100_000)).unwrap();
    idx.insert(doc("d2", "two fish", "a", 600_000)).unwrap();
    idx.insert(doc("d3", "red fish", "a", 700_000)).unwrap();
    idx.insert(doc("d4", "blue fish", "a", 800_000)).unwrap();
    let mut q = SearchQuery::new("fish");
    q.limit = 2;
    q.min_trust_score = Some(Score::new(500_000).unwrap());
    let hits = idx.search(q).unwrap();
    let ids: Vec<&str> = hits.iter().map(|h| h.id.as_str()).collect();
    assert_eq!(ids, vec!["d2", "d3"]);
    let mut q = SearchQuery::new("fish");
    q.limit = 0;
    assert!(idx.search(q).unwrap().is_empty());
}

#[test]
fn title_is_the_first_line_cut_at_eighty_characters() {
    assert_eq!(title_from("Heading\nbody text"), "Heading");
    assert_eq!(title_from("no newline"), "no newline");
    assert_eq!(title_from(""), "");
    assert_eq!(title_from("\nsecond"), "");
    let long: String = "x".repeat(100);
    assert_eq!(title_from(&long), "x".repeat(80));
    let accented: String = "é".repeat(90);
    assert_eq!(title_from(&accented), "é".repeat(80));
    let exact = format!("{}\n{}", "y".repeat(80), "z");
    assert_eq!(title_from(&exact), "y".repeat(80));
}

#[test]
fn snippet_is_the_first_two_hundred_and_forty_characters() {
    assert_eq!(snippet_from("short"), "short");
    assert_eq!(snippet_from(""), "");
    let long: String = "ab".repeat(200);
    assert_eq!(snippet_from(&long), "ab".repeat(120));
    let accented: String = "ü".repeat(300);
    assert_eq!(snippet_from(&accented), "ü".repeat(240));
}

#[test]
fn coverage_is_the_share_of_bytes() {
    assert_eq!(coverage_of("ownership", "Rust ownership model").millionths(), 450_000);
    assert_eq!(coverage_of("abc", "abc").millionths(), 1_000_000);
    assert_eq!(coverage_of("a", "abc").millionths(), 333_333);
    assert_eq!(coverage_of("abcdef", "abc").millionths(), 1_000_000);
    assert_eq!(coverage_of("", "abc").millionths(), 1);
    assert_eq!(coverage_of("abc", "").millionths(), 1_000_000);
    let big: String = "x".repeat(3_000_000);
    assert_eq!(coverage_of("x", &big).millionths(), 1);
}

#[test]
fn index_error_texts() {
    assert_eq!(IndexError::StorageError("disk full".to_string()).message(), "Storage error: disk full");
    assert_eq!(IndexError::QueryError("bad".to_string()).message(), "Query error: bad");
    assert_eq!(IndexError::NotFound.message(), "Document not found");
}

#[test]
fn rescore_changes_the_stored_trust_only() {
    let mut idx = KeywordIndex::new();
    idx.insert(doc("d1", "alpha", "wiki", 900_000)).unwrap();
    idx.insert(doc("d2", "beta", "wiki", 800_000)).unwrap();
    assert!(idx.rescore("d1", Score::new(250_000).unwrap()));
    assert!(!idx.rescore("d9", Score::new(250_000).unwrap()));
    assert_eq!(idx.len(), 2);
    let d1 = idx.get("d1").unwrap().unwrap();
    assert_eq!(d1.metadata.trust_score.millionths(), 250_000);
    assert_eq!(d1.content, "alpha");
    assert_eq!(d1.metadata.source, "wiki");
    let d2 = idx.get("d2").unwrap().unwrap();
    assert_eq!(d2.metadata.trust_score.millionths(), 800_000);
    let hits = idx.search(SearchQuery::new("alpha")).unwrap();
    assert_eq!(hits[0].trust_score.millionths(), 250_000);
}
