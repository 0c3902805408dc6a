use page_context::document::{ContextValue, Document};
use page_context::names::Format;
use page_context::walker::{EntryKind, Listed, LoadError, Note, Reply, Request, Walker};

fn names(list: &[&str]) -> Vec<String> {
    list.iter().map(|name| name.to_string()).collect()
}

fn path_of(request: &Request) -> Vec<String> {
    match request {
        Request::List(path) | Request::Inspect(path) | Request::Read(path) => path.clone(),
        Request::Done => Vec::new(),
    }
}

fn as_text<'a>(document: &'a Document, key: &str) -> Option<&'a str> {
    match document.get(key) {
        Some(ContextValue::String(text)) => Some(text.as_str()),
        _ => None,
    }
}

#[test]
fn a_walk_begins_by_listing_the_root() {
    let walker = Walker::new();
    assert!(!walker.is_done());
    assert_eq!(walker.depth(), 0);
    assert!(matches!(walker.request(), Request::List(path) if path.is_empty()));
    assert!(walker.finish().is_none());
}

#[test]
fn a_missing_root_ends_the_walk_with_an_empty_document() {
    let mut walker = Walker::new();
    assert_eq!(walker.advance(Reply::Listed(Listed::Missing)), Note::MissingDirectory);
    assert!(walker.is_done());
    assert!(matches!(walker.request(), Request::Done));
    let document = walker.finish().unwrap().unwrap();
    assert!(document.is_empty());
}

#[test]
fn an_unreadable_root_fails_the_load() {
    let mut walker = Walker::new();
    assert_eq!(walker.advance(Reply::Listed(Listed::Unreadable)), Note::UnreadableDirectory);
    assert!(walker.is_done());
    assert_eq!(walker.finish().unwrap().unwrap_err(), LoadError::RootUnreadable);
}

#[test]
fn an_empty_root_ends_the_walk_at_once() {
    let mut walker = Walker::new();
    assert_eq!(walker.advance(Reply::Listed(Listed::Names(Vec::new()))), Note::Nothing);
    assert!(walker.is_done());
    assert!(walker.finish().unwrap().unwrap().is_empty());
}

#[test]
fn a_reply_of_the_wrong_kind_counts_as_a_failure() {
    let mut walker = Walker::new();
    assert_eq!(walker.advance(Reply::Kind(EntryKind::File)), Note::UnreadableDirectory);
    assert_eq!(walker.finish().unwrap().unwrap_err(), LoadError::RootUnreadable);

    let mut walker = Walker::new();
    walker.advance(Reply::Listed(Listed::Names(names(&["a.txt", "b.txt"]))));
    assert_eq!(walker.advance(Reply::Text(Some("x".to_string()))), Note::UnknownEntry);
    assert!(matches!(walker.request(), Request::Inspect(path) if path == names(&["b.txt"])));
    walker.advance(Reply::Kind(EntryKind::File));
    assert_eq!(walker.advance(Reply::Kind(EntryKind::File)), Note::UnreadableFile);
    let document = walker.finish().unwrap().unwrap();
    assert!(document.is_empty());
}

#[test]
fn a_finished_walk_stays_finished() {
    let mut walker = Walker::new();
    walker.advance(Reply::Listed(Listed::Missing));
    assert_eq!(walker.advance(Reply::Listed(Listed::Names(names(&["a.txt"])))), Note::Nothing);
    assert_eq!(walker.advance(Reply::Kind(EntryKind::File)), Note::Nothing);
    assert!(walker.is_done());
    assert!(walker.finish().unwrap().unwrap().is_empty());
}

#[test]
fn files_are_inspected_then_read_by_their_extension() {
    let mut walker = Walker::new();
    walker.advance(Reply::Listed(Listed::Names(names(&["a.json", "b.txt", "c.csv"]))));
    assert_eq!(walker.depth(), 1);

    assert!(matches!(walker.request(), Request::Inspect(path) if path == names(&["a.json"])));
    assert_eq!(walker.advance(Reply::Kind(EntryKind::File)), Note::Nothing);
    assert!(matches!(walker.request(), Request::Read(path) if path == names(&["a.json"])));
    assert_eq!(
        walker.advance(Reply::Text(Some("{\"k\": 1}".to_string()))),
        Note::Loaded(Format::Json)
    );

    assert!(matches!(walker.request(), Request::Inspect(path) if path == names(&["b.txt"])));
    walker.advance(Reply::Kind(EntryKind::File));
    assert!(matches!(walker.request(), Request::Read(path) if path == names(&["b.txt"])));
    assert_eq!(
        walker.advance(Reply::Text(Some("hello\n".to_string()))),
        Note::Loaded(Format::Text)
    );

    assert!(matches!(walker.request(), Request::Inspect(path) if path == names(&["c.csv"])));
    assert_eq!(walker.advance(Reply::Kind(EntryKind::File)), Note::Nothing);
    assert!(walker.is_done());

    let document = walker.finish().unwrap().unwrap();
    assert_eq!(document.len(), 2);
    assert_eq!(as_text(&document, "b"), Some("hello\n"));
    let expected: serde_json::Value = serde_json::from_str("{\"k\": 1}").unwrap();
    assert!(matches!(document.get("a"), Some(ContextValue::Json(json)) if *json == expected));
    assert!(!document.contains_key("c"));
}

#[test]
fn failures_are_noted_and_left_out() {
    let mut walker = Walker::new();
    walker.advance(Reply::Listed(Listed::Names(names(&[
        "bad.json", "gone.txt", "odd", "fifo.txt", "locked", "ok.txt",
    ]))));

    walker.advance(Reply::Kind(EntryKind::File));
    assert_eq!(walker.advance(Reply::Text(Some("{ nope".to_string()))), Note::MalformedJson);

    walker.advance(Reply::Kind(EntryKind::File));
    assert_eq!(walker.advance(Reply::Text(None)), Note::UnreadableFile);

    assert_eq!(walker.advance(Reply::Kind(EntryKind::Unknown)), Note::UnknownEntry);
    assert_eq!(walker.advance(Reply::Kind(EntryKind::Other)), Note::Nothing);

    assert_eq!(walker.advance(Reply::Kind(EntryKind::Directory)), Note::Nothing);
    assert!(matches!(walker.request(), Request::List(path) if path == names(&["locked"])));
    assert_eq!(walker.advance(Reply::Listed(Listed::Unreadable)), Note::UnreadableDirectory);

    walker.advance(Reply::Kind(EntryKind::File));
    assert_eq!(walker.advance(Reply::Text(Some("fine".to_string()))), Note::Loaded(Format::Text));

    let document = walker.finish().unwrap().unwrap();
    assert_eq!(document.len(), 1);
    assert_eq!(as_text(&document, "ok"), Some("fine"));
}

#[test]
fn paths_lead_from_the_root_to_the_entry() {
    let mut walker = Walker::new();
    walker.advance(Reply::Listed(Listed::Names(names(&["a", "z.txt"]))));
    walker.advance(Reply::Kind(EntryKind::Directory));
    assert_eq!(path_of(&walker.request()), names(&["a"]));
    walker.advance(Reply::Listed(Listed::Names(names(&["b"]))));
    assert_eq!(walker.depth(), 2);
    assert_eq!(path_of(&walker.request()), names(&["a", "b"]));
    walker.advance(Reply::Kind(EntryKind::Directory));
    assert!(matches!(walker.request(), Request::List(path) if path == names(&["a", "b"])));
    walker.advance(Reply::Listed(Listed::Names(names(&["c.txt"]))));
    assert_eq!(walker.depth(), 3);
    assert!(matches!(walker.request(), Request::Inspect(path) if path == names(&["a", "b", "c.txt"])));
    walker.advance(Reply::Kind(EntryKind::File));
    assert!(matches!(walker.request(), Request::Read(path) if path == names(&["a", "b", "c.txt"])));
    walker.advance(Reply::Text(Some("deep".to_string())));
    assert_eq!(walker.depth(), 1);
    assert!(matches!(walker.request(), Request::Inspect(path) if path == names(&["z.txt"])));
    walker.advance(Reply::Kind(EntryKind::File));
    walker.advance(Reply::Text(Some("last".to_string())));
    assert!(walker.is_done());
    assert_eq!(walker.depth(), 0);

    let document = walker.finish().unwrap().unwrap();
    assert_eq!(document.len(), 2);
    assert_eq!(as_text(&document, "z"), Some("last"));
    let a = match document.get("a") {
        Some(ContextValue::Object(a)) => a,
        other => panic!("no object under a: {:?}", other),
    };
    let b = match a.get("b") {
        Some(ContextValue::Object(b)) => b,
        other => panic!("no object under b: {:?}", other),
    };
    assert_eq!(as_text(b, "c"), Some("deep"));
}

#[test]
fn a_subdirectory_that_is_gone_counts_as_empty() {
    let mut walker = Walker::new();
    walker.advance(Reply::Listed(Listed::Names(names(&["sub"]))));
    walker.advance(Reply::Kind(EntryKind::Directory));
    assert_eq!(walker.advance(Reply::Listed(Listed::Missing)), Note::MissingDirectory);
    let document = walker.finish().unwrap().unwrap();
    assert!(matches!(document.get("sub"), Some(ContextValue::Object(sub)) if sub.is_empty()));
}

#[test]
fn an_empty_subdirectory_enters_as_an_empty_object() {
    let mut walker = Walker::new();
    walker.advance(Reply::Listed(Listed::Names(names(&["sub", "after.txt"]))));
    walker.advance(Reply::Kind(EntryKind::Directory));
    walker.advance(Reply::Listed(Listed::Names(Vec::new())));
    assert_eq!(walker.depth(), 1);
    assert!(matches!(walker.request(), Request::Inspect(path) if path == names(&["after.txt"])));
    walker.advance(Reply::Kind(EntryKind::Other));
    let document = walker.finish().unwrap().unwrap();
    assert_eq!(document.len(), 1);
    assert!(matches!(document.get("sub"), Some(ContextValue::Object(sub)) if sub.is_empty()));
}
