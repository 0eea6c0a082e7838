use bucket_size::report::{ReportError, Summary};
use bucket_size::walker::{Action, BucketObjects, BucketRequest, Entry, Page, TransportError};

fn entry(key: &str, size: i64) -> Entry {
    Entry { key: Some(key.to_string()), size: Some(size) }
}

fn page(objects: Vec<Entry>, prefixes: &[&str], next: Option<&str>) -> Page {
    Page {
        objects,
        common_prefixes: prefixes.iter().map(|p| Some(p.to_string())).collect(),
        next_token: next.map(|t| t.to_string()),
    }
}

fn fetch(a: &Action) -> (String, Option<String>) {
    match a {
        Action::Fetch { prefix, token } => (prefix.clone(), token.clone()),
        Action::Done => panic!("traversal ended early"),
    }
}

fn keys(items: &BucketObjects) -> Vec<String> {
    items.objects().iter().map(|e| e.key.clone().unwrap()).collect()
}

#[test]
fn three_objects_in_two_directories() {
    let mut req = BucketRequest::new("bucket".to_string());
    let a = req.list_objects("");
    assert_eq!(fetch(&a), ("".to_string(), None));
    let a = req.on_page(Ok(page(vec![], &["a/", "b/"], None)));
    assert_eq!(fetch(&a), ("a/".to_string(), None));
    let a = req.on_page(Ok(page(vec![entry("a/1", 100), entry("a/2", 200)], &[], None)));
    assert_eq!(fetch(&a), ("b/".to_string(), None));
    let a = req.on_page(Ok(page(vec![entry("b/1", 300)], &[], None)));
    assert!(matches!(a, Action::Done));
    assert_eq!(req.request_count(), 3);
    assert_eq!(req.bucket(), "bucket");
    assert!(req.failed_prefixes().is_empty());
    let items = req.into_items();
    assert_eq!(items.prefixes(), &vec!["a/".to_string(), "b/".to_string()]);
    assert_eq!(keys(&items), vec!["a/1", "a/2", "b/1"]);
    let s = items.summary().unwrap();
    assert_eq!(s, Summary { object_count: 3, total_size: 600 });
    assert_eq!(s.total_objects_line(), "Total Objects: 3");
    // 600 bytes is below one kilobyte, so it stays in bytes.
    assert_eq!(s.total_size_line().unwrap(), "Total Size: 600.00 B (600 bytes)");
}

#[test]
fn empty_bucket() {
    let mut req = BucketRequest::new("empty".to_string());
    let a = req.list_objects("");
    assert_eq!(fetch(&a), ("".to_string(), None));
    let a = req.on_page(Ok(page(vec![], &[], None)));
    assert!(matches!(a, Action::Done));
    assert_eq!(req.request_count(), 1);
    let s = req.into_items().summary().unwrap();
    assert_eq!(s.total_objects_line(), "Total Objects: 0");
    assert_eq!(s.total_size_line().unwrap(), "Total Size: 0 B (0 bytes)");
}

#[test]
fn subtree_is_walked_before_next_page() {
    let mut req = BucketRequest::new("b".to_string());
    req.list_objects("");
    let a = req.on_page(Ok(page(vec![entry("x", 1)], &["d/"], Some("t1"))));
    assert_eq!(fetch(&a), ("d/".to_string(), None));
    let a = req.on_page(Ok(page(vec![entry("d/y", 2)], &["d/e/"], None)));
    assert_eq!(fetch(&a), ("d/e/".to_string(), None));
    let a = req.on_page(Ok(page(vec![entry("d/e/z", 3)], &[], None)));
    assert_eq!(fetch(&a), ("".to_string(), Some("t1".to_string())));
    assert_eq!(req.items().prefixes(), &vec!["d/e/".to_string(), "d/".to_string()]);
    let a = req.on_page(Ok(page(vec![entry("w", 4)], &[], None)));
    assert!(matches!(a, Action::Done));
    assert_eq!(req.request_count(), 3);
    assert_eq!(keys(req.items()), vec!["x", "d/y", "d/e/z", "w"]);
}

#[test]
fn pagination_stops_on_empty_or_repeated_token() {
    let mut req = BucketRequest::new("b".to_string());
    req.list_objects("p/");
    let a = req.on_page(Ok(page(vec![entry("p/1", 1)], &[], Some("t"))));
    assert_eq!(fetch(&a), ("p/".to_string(), Some("t".to_string())));
    let a = req.on_page(Ok(page(vec![entry("p/2", 1)], &[], Some("t"))));
    assert!(matches!(a, Action::Done));
    let mut req = BucketRequest::new("b".to_string());
    req.list_objects("");
    let a = req.on_page(Ok(page(vec![], &[], Some(""))));
    assert!(matches!(a, Action::Done));
}

#[test]
fn failed_branch_does_not_stop_siblings() {
    let mut req = BucketRequest::new("b".to_string());
    req.list_objects("");
    let a = req.on_page(Ok(page(vec![entry("top", 5)], &["a/", "b/", "c/"], None)));
    assert_eq!(fetch(&a), ("a/".to_string(), None));
    let a = req.on_page(Ok(page(vec![entry("a/1", 10)], &[], None)));
    assert_eq!(fetch(&a), ("b/".to_string(), None));
    let a = req.on_page(Err(TransportError { message: "timed out".to_string() }));
    assert_eq!(fetch(&a), ("c/".to_string(), None));
    let a = req.on_page(Ok(page(vec![entry("c/1", 20)], &[], None)));
    assert!(matches!(a, Action::Done));
    assert_eq!(req.failed_prefixes(), &vec!["b/".to_string()]);
    assert_eq!(req.request_count(), 4);
    let items = req.into_items();
    assert_eq!(items.prefixes(), &vec!["a/".to_string(), "b/".to_string(), "c/".to_string()]);
    assert_eq!(keys(&items), vec!["top", "a/1", "c/1"]);
    assert_eq!(items.summary().unwrap().total_size, 35);
}

#[test]
fn prefix_without_text_is_passed_over() {
    let mut req = BucketRequest::new("b".to_string());
    req.list_objects("");
    let p = Page { objects: vec![], common_prefixes: vec![None, Some("a/".to_string())], next_token: None };
    let a = req.on_page(Ok(p));
    assert_eq!(fetch(&a), ("a/".to_string(), None));
    assert_eq!(req.request_count(), 2);
}

#[test]
fn answer_without_request_is_ignored() {
    let mut req = BucketRequest::new("b".to_string());
    let a = req.on_page(Ok(page(vec![entry("x", 1)], &["a/"], None)));
    assert!(matches!(a, Action::Done));
    assert_eq!(req.request_count(), 0);
    assert!(req.items().objects().is_empty());
    assert!(matches!(req.next_action(), Action::Done));
}

#[test]
fn unknown_size_is_an_error() {
    let mut req = BucketRequest::new("b".to_string());
    req.list_objects("");
    req.on_page(Ok(page(vec![entry("x", 1), Entry { key: Some("y".to_string()), size: None }], &[], None)));
    assert_eq!(req.into_items().summary(), Err(ReportError::SizeUnknown));
}

#[test]
fn total_beyond_i64_is_an_error() {
    let mut req = BucketRequest::new("b".to_string());
    req.list_objects("");
    req.on_page(Ok(page(vec![entry("x", i64::MAX), entry("y", 1)], &[], None)));
    assert_eq!(req.into_items().summary(), Err(ReportError::SizeOverflow));
}

#[test]
fn summary_is_repeatable() {
    let build = || {
        let mut req = BucketRequest::new("b".to_string());
        req.list_objects("");
        req.on_page(Ok(page(vec![entry("x", 7), entry("y", 9)], &[], None)));
        req.into_items()
    };
    assert_eq!(build().summary(), build().summary());
    assert_eq!(build().summary(), Ok(Summary { object_count: 2, total_size: 16 }));
}

#[test]
fn negative_total_is_refused_in_the_size_line() {
    let s = Summary { object_count: 1, total_size: -3 };
    assert!(s.total_size_line().is_err());
    assert_eq!(s.total_objects_line(), "Total Objects: 1");
}

#[test]
fn fresh_listing_is_empty() {
    let items = BucketObjects::new();
    assert!(items.prefixes().is_empty());
    assert_eq!(items.summary(), Ok(Summary { object_count: 0, total_size: 0 }));
}
