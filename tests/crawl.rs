use rust_repos::{Crawl, Summary, DEFAULT_PAGE_SIZE, MAX_BATCH};

fn summary(id: u64, fork: bool) -> Summary {
    Summary { id, opaque_id: format!("opaque({})", id), fork }
}

fn ids(v: &[&str]) -> Vec<String> {
    v.iter().map(|s| s.to_string()).collect()
}

fn named(id: u64, name: &str) -> Summary {
    Summary { id, opaque_id: name.to_string(), fork: false }
}

#[test]
fn new_starts_from_zero_without_cursor() {
    let crawl = Crawl::new(None);
    assert_eq!(crawl.cursor(), 0);
    assert!(crawl.buffer().is_empty());
    assert!(!crawl.is_done());
}

#[test]
fn new_resumes_from_persisted_cursor() {
    let crawl = Crawl::new(Some(42));
    assert_eq!(crawl.cursor(), 42);
}

#[test]
fn with_limits_rejects_bad_limits() {
    assert!(Crawl::with_limits(None, 0, 10).is_none());
    assert!(Crawl::with_limits(None, 10, 0).is_none());
    assert!(Crawl::with_limits(None, 10, MAX_BATCH + 1).is_none());
    assert!(Crawl::with_limits(None, 1, MAX_BATCH).is_some());
}

#[test]
fn short_page_flushes_whole_buffer() {
    let mut crawl = Crawl::with_limits(None, 4, 3).unwrap();
    let page = vec![summary(1, false), summary(2, true), summary(3, false)];
    assert!(crawl.accepts_page(&page));
    let batch = crawl.absorb_page(&page);
    assert_eq!(crawl.cursor(), 3);
    assert_eq!(batch, Some(ids(&["opaque(1)", "opaque(3)"])));
    assert!(crawl.buffer().is_empty());
    assert!(crawl.is_done());
}

#[test]
fn flush_keeps_older_head_and_sends_newest() {
    let mut crawl = Crawl::with_limits(None, 5, 3).unwrap();
    let page = vec![
        named(1, "a"),
        named(2, "b"),
        named(3, "c"),
        named(4, "d"),
        named(5, "e"),
    ];
    let batch = crawl.absorb_page(&page);
    assert_eq!(batch, Some(ids(&["c", "d", "e"])));
    assert_eq!(crawl.buffer(), &ids(&["a", "b"]));
    assert_eq!(crawl.cursor(), 5);
    assert!(!crawl.is_done());
}

#[test]
fn no_flush_below_limit() {
    let mut crawl = Crawl::with_limits(None, 3, 3).unwrap();
    let page = vec![named(1, "a"), summary(2, true), named(3, "c")];
    let batch = crawl.absorb_page(&page);
    assert_eq!(batch, None);
    assert_eq!(crawl.buffer(), &ids(&["a", "c"]));
    assert!(!crawl.is_done());
}

#[test]
fn leftover_head_waits_for_final_flush() {
    let mut crawl = Crawl::with_limits(None, 3, 2).unwrap();
    let first = crawl.absorb_page(&vec![named(1, "a"), named(2, "b"), named(3, "c")]);
    assert_eq!(first, Some(ids(&["b", "c"])));
    assert_eq!(crawl.buffer(), &ids(&["a"]));
    let second = crawl.absorb_page(&vec![named(4, "d"), named(5, "e"), named(6, "f")]);
    assert_eq!(second, Some(ids(&["e", "f"])));
    assert_eq!(crawl.buffer(), &ids(&["a", "d"]));
    let last = crawl.absorb_page(&vec![named(7, "g")]);
    assert_eq!(last, Some(ids(&["a", "d", "g"])));
    assert!(crawl.buffer().is_empty());
    assert!(crawl.is_done());
}

#[test]
fn cursor_advances_past_trailing_fork() {
    let mut crawl = Crawl::with_limits(Some(10), 3, 3).unwrap();
    let page = vec![summary(11, false), summary(12, false), summary(15, true)];
    crawl.absorb_page(&page);
    assert_eq!(crawl.cursor(), 15);
}

#[test]
fn cursor_is_non_decreasing_and_tracks_last_seen() {
    let mut crawl = Crawl::with_limits(Some(7), 2, 2).unwrap();
    let pages = vec![
        vec![summary(8, true), summary(9, false)],
        vec![summary(20, false), summary(21, true)],
        vec![summary(30, false)],
    ];
    let mut previous = crawl.cursor();
    for page in &pages {
        assert!(crawl.accepts_page(page));
        crawl.absorb_page(page);
        assert!(crawl.cursor() >= previous);
        assert_eq!(crawl.cursor(), page.last().unwrap().id);
        previous = crawl.cursor();
    }
    assert!(crawl.is_done());
}

#[test]
fn forks_never_reach_a_batch() {
    let mut crawl = Crawl::with_limits(None, 4, 2).unwrap();
    let page = vec![summary(1, true), summary(2, false), summary(3, true), summary(4, false)];
    let batch = crawl.absorb_page(&page).unwrap();
    assert_eq!(batch, ids(&["opaque(2)", "opaque(4)"]));
    assert!(!batch.contains(&"opaque(1)".to_string()));
    assert!(!batch.contains(&"opaque(3)".to_string()));
}

#[test]
fn full_default_pages_give_batches_of_at_most_max() {
    let mut crawl = Crawl::new(None);
    let mut next: u64 = 1;
    for _ in 0..3 {
        let page: Vec<Summary> = (0..DEFAULT_PAGE_SIZE)
            .map(|k| {
                let s = summary(next, k % 3 == 0);
                next += 1;
                s
            })
            .collect();
        if let Some(batch) = crawl.absorb_page(&page) {
            assert!(batch.len() <= MAX_BATCH);
            assert_eq!(batch.len(), MAX_BATCH);
        }
    }
    assert_eq!(crawl.buffer().len(), 3 * 66 - MAX_BATCH);
}

#[test]
fn empty_page_ends_walk_with_empty_batch() {
    let mut crawl = Crawl::with_limits(Some(5), 3, 3).unwrap();
    let batch = crawl.absorb_page(&vec![]);
    assert_eq!(batch, Some(vec![]));
    assert_eq!(crawl.cursor(), 5);
    assert!(crawl.is_done());
}

#[test]
fn final_flush_may_exceed_limit() {
    let mut crawl = Crawl::with_limits(None, 4, 2).unwrap();
    let first = crawl.absorb_page(&vec![named(1, "a"), named(2, "b"), named(3, "c"), named(4, "d")]);
    assert_eq!(first, Some(ids(&["c", "d"])));
    let last = crawl.absorb_page(&vec![named(5, "e"), named(6, "f")]);
    assert_eq!(last, Some(ids(&["a", "b", "e", "f"])));
}

#[test]
fn restart_resumes_after_persisted_cursor() {
    // The first run walks a page and persists its cursor; its buffer is lost.
    let mut first = Crawl::with_limits(None, 10, 100).unwrap();
    let page: Vec<Summary> = (1..=10).map(|id| summary(id, false)).collect();
    assert_eq!(first.absorb_page(&page), None);
    let persisted = first.cursor();
    assert_eq!(persisted, 10);
    assert_eq!(first.buffer().len(), 10);

    let second = Crawl::with_limits(Some(persisted), 10, 100).unwrap();
    assert_eq!(second.cursor(), 10);
    assert!(second.buffer().is_empty());
    assert!(!second.accepts_page(&vec![summary(10, false)]));
    assert!(!second.accepts_page(&vec![summary(3, false)]));
    assert!(second.accepts_page(&vec![summary(11, false), summary(12, true)]));
}

#[test]
fn accepts_page_checks_order_and_size() {
    let crawl = Crawl::with_limits(Some(1), 2, 2).unwrap();
    assert!(crawl.accepts_page(&vec![]));
    assert!(crawl.accepts_page(&vec![summary(2, false), summary(5, false)]));
    assert!(!crawl.accepts_page(&vec![summary(5, false), summary(5, false)]));
    assert!(!crawl.accepts_page(&vec![summary(5, false), summary(3, false)]));
    assert!(!crawl.accepts_page(&vec![summary(2, false), summary(3, false), summary(4, false)]));
}
