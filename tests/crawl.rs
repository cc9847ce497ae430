use webcrawler::dashboard::{newest, next_frame, peak_rate, uptime_parts};
use webcrawler::fetch::{check_body, check_response, text_contains, FetchError, MAX_RESPONSE_SIZE};
use webcrawler::limiter::{RateLimiter, MIN_DELAY_MS};
use webcrawler::sink::OutputBatch;
use webcrawler::stats::CrawlerStats;
use webcrawler::store::{
    counter_value, decide_add, decide_mark_visited, decide_pop, decide_save_counter, le_bytes, url_key, Family,
    StoreWrite, STATS_KEY,
};

#[test]
fn body_at_cap_accepted_one_over_rejected() {
    let exact = "a".repeat(10 * 1024 * 1024);
    assert_eq!(exact.len() as u64, MAX_RESPONSE_SIZE);
    assert!(check_body(exact).is_ok());
    let over = "a".repeat(10 * 1024 * 1024 + 1);
    assert!(matches!(check_body(over), Err(FetchError::TooLarge(n)) if n == MAX_RESPONSE_SIZE + 1));
}

#[test]
fn body_length_counts_bytes() {
    let s = "é".repeat(5 * 1024 * 1024 + 1);
    assert!(matches!(check_body(s), Err(FetchError::TooLarge(_))));
}

#[test]
fn missing_content_length_under_cap_accepted() {
    assert!(check_response(200, Some("text/html; charset=utf-8"), None).is_ok());
    assert!(check_body("<html></html>".to_string()).is_ok());
    assert!(check_response(204, None, None).is_ok());
}

#[test]
fn declared_length_over_cap_rejected() {
    assert!(matches!(
        check_response(200, Some("text/html"), Some(MAX_RESPONSE_SIZE + 1)),
        Err(FetchError::TooLarge(n)) if n == MAX_RESPONSE_SIZE + 1
    ));
    assert!(check_response(200, Some("text/html"), Some(MAX_RESPONSE_SIZE)).is_ok());
}

#[test]
fn status_404_rejected() {
    let e = check_response(404, Some("text/html"), None);
    assert!(matches!(e, Err(FetchError::HttpError(404))));
    assert!(matches!(check_response(199, None, None), Err(FetchError::HttpError(199))));
    assert!(matches!(check_response(300, None, None), Err(FetchError::HttpError(300))));
}

#[test]
fn pdf_content_type_rejected() {
    match check_response(200, Some("application/pdf"), Some(10)) {
        Err(FetchError::InvalidContentType(ct)) => assert_eq!(ct, "application/pdf"),
        _ => panic!("expected a content-type refusal"),
    }
}

#[test]
fn error_messages() {
    assert_eq!(FetchError::HttpError(404).message(), "HTTP error: 404");
    assert_eq!(FetchError::InvalidContentType("x/y".to_string()).message(), "Invalid content type: x/y");
    assert_eq!(FetchError::TooLarge(12).message(), "Response too large: 12 bytes");
    assert_eq!(FetchError::RequestError("timeout".to_string()).message(), "Request error: timeout");
}

#[test]
fn substring_search() {
    assert!(text_contains("text/html; charset=utf-8", "text/html"));
    assert!(text_contains("abc", ""));
    assert!(!text_contains("text/htm", "text/html"));
    assert!(text_contains("xxtext/html", "text/html"));
}

#[test]
fn error_ring_keeps_ten_newest() {
    let mut s = CrawlerStats::new(0, 0, 0);
    for i in 0..12 {
        s.add_error(format!("e{}", i));
    }
    let errs = s.errors();
    assert_eq!(errs.len(), 10);
    assert_eq!(errs[0], "e2");
    assert_eq!(errs[9], "e11");
}

#[test]
fn rate_ring_keeps_sixty_newest() {
    let mut s = CrawlerStats::new(0, 0, 0);
    for i in 0..61u64 {
        s.add_rate(i);
    }
    let r = s.rate_history();
    assert_eq!(r.len(), 60);
    assert_eq!(r[0], 1);
    assert_eq!(r[59], 60);
}

#[test]
fn stop_flag() {
    let mut s = CrawlerStats::new(5, 0, 0);
    assert!(!s.should_stop());
    s.stop();
    assert!(s.should_stop());
    s.enqueue();
    assert!(!s.begin_dispatch(100));
    assert_eq!(s.pages_crawled(), 6);
    assert_eq!(s.active_workers(), 0);
}

#[test]
fn dispatch_budget_and_counters() {
    let mut s = CrawlerStats::new(8, 0, 0);
    s.enqueue();
    s.enqueue();
    s.enqueue();
    assert_eq!(s.queue_size(), 3);
    assert!(s.begin_dispatch(10));
    assert_eq!(s.pages_crawled(), 9);
    assert_eq!(s.active_workers(), 1);
    assert_eq!(s.finish_dispatch(true), None);
    assert!(s.begin_dispatch(10));
    assert_eq!(s.finish_dispatch(true), Some(10));
    assert!(!s.begin_dispatch(10));
    assert_eq!(s.pages_crawled(), 11);
    assert_eq!(s.pages_written(), 2);
    assert_eq!(s.queue_size(), 0);
    assert!(s.pages_written() <= s.pages_crawled());
}

#[test]
fn failed_fetch_records_error_and_no_page() {
    let mut s = CrawlerStats::new(0, 0, 1);
    assert!(s.begin_dispatch(1000));
    let err = check_response(404, Some("text/html"), None).unwrap_err();
    s.add_error(format!("{}: {}", "https://en.wikipedia.org/wiki/Missing", err.message()));
    assert_eq!(s.finish_dispatch(false), None);
    assert_eq!(s.pages_written(), 0);
    assert_eq!(s.errors(), vec!["https://en.wikipedia.org/wiki/Missing: HTTP error: 404".to_string()]);
}

#[test]
fn dispatch_counter_never_decreases() {
    let mut s = CrawlerStats::new(0, 0, 0);
    let mut last = 0;
    for i in 0..30 {
        s.begin_dispatch(20);
        s.finish_dispatch(i % 2 == 0);
        assert!(s.pages_crawled() >= last);
        last = s.pages_crawled();
        assert!(s.pages_written() <= s.pages_crawled());
    }
}

#[test]
fn feeder_hysteresis() {
    let mut s = CrawlerStats::new(0, 0, 0);
    assert!(s.feeder_should_pop(10));
    for _ in 0..5 {
        s.enqueue();
    }
    assert!(!s.feeder_should_pop(10));
    assert!(!s.feeder_done(10));
    s.stop();
    assert!(!s.feeder_should_pop(1000));
    assert!(s.feeder_done(10));
}

#[test]
fn rate_sampling() {
    let mut s = CrawlerStats::new(0, 0, 0);
    for _ in 0..7 {
        s.begin_dispatch(100);
    }
    assert_eq!(s.sample_rate(3), 7);
    assert_eq!(s.sample_rate(9), 7);
    assert_eq!(s.rate_history(), vec![4, 0]);
}

#[test]
fn second_fetch_within_100ms_waits_900ms() {
    let mut rl = RateLimiter::new();
    assert_eq!(rl.delay_for("en.wikipedia.org", 5_000), 0);
    rl.record_dispatch("en.wikipedia.org", 5_000);
    assert_eq!(rl.delay_for("en.wikipedia.org", 5_100), 900);
    assert_eq!(rl.delay_for("de.wikipedia.org", 5_100), 0);
    assert_eq!(rl.delay_for("en.wikipedia.org", 6_000), 0);
    assert_eq!(rl.delay_for("en.wikipedia.org", 4_000), MIN_DELAY_MS);
}

#[test]
fn sequential_dispatches_spaced_by_min_delay() {
    let mut rl = RateLimiter::with_min_delay(250);
    let mut now = 0u64;
    let mut last_start: Option<u64> = None;
    for step in [0u64, 10, 300, 20, 0] {
        now += step;
        let wait = rl.delay_for("h", now);
        let start = now + wait;
        if let Some(prev) = last_start {
            assert!(start - prev >= 250);
        }
        rl.record_dispatch("h", start);
        last_start = Some(start);
        now = start;
    }
}

#[test]
fn batch_flush_triggers() {
    let mut b = OutputBatch::new(0);
    assert!(!b.should_flush(4_999));
    assert!(b.should_flush(5_000));
    for i in 0..99 {
        b.add_to_batch(format!("{{\"n\":{}}}", i));
    }
    assert!(!b.should_flush(10));
    b.add_to_batch("{}".to_string());
    assert!(b.should_flush(10));
    let lines = b.flush(20);
    assert_eq!(lines.len(), 100);
    assert_eq!(lines[0], "{\"n\":0}");
    assert!(!b.should_flush(5_019));
    assert!(b.should_flush(5_020));
    assert!(b.flush(30).is_empty());
    assert!(b.should_flush(5_020));
}

#[test]
fn batch_flushes_at_a_mebibyte() {
    let mut b = OutputBatch::new(0);
    b.add_to_batch("x".repeat(1024 * 1024 - 2));
    assert!(!b.should_flush(0));
    b.add_to_batch(String::new());
    assert!(b.should_flush(0));
}

#[test]
fn counter_bytes_round_trip() {
    for n in [0u64, 1, 10, 255, 256, 1_000_000, u64::MAX] {
        let b = le_bytes(n);
        assert_eq!(b, n.to_le_bytes().to_vec());
        assert_eq!(counter_value(&b), n);
    }
    assert_eq!(counter_value(&[1, 2, 3]), 0);
    match decide_save_counter(40) {
        StoreWrite::SaveCounter { value } => {
            assert_eq!(value, 40u64.to_le_bytes().to_vec());
            assert_eq!(counter_value(&value), 40);
        }
        _ => panic!("expected a counter write"),
    }
}

#[test]
fn add_twice_then_refused() {
    let key = url_key("https://en.wikipedia.org/wiki/A#top");
    assert_eq!(key, b"https://en.wikipedia.org/wiki/A".to_vec());
    match decide_add(key.clone(), false, false, 7) {
        Some(StoreWrite::AddToFrontier { key: k, value }) => {
            assert_eq!(k, key);
            assert_eq!(value, 7u64.to_le_bytes().to_vec());
        }
        _ => panic!("expected an insertion"),
    }
    assert!(decide_add(key.clone(), false, true, 8).is_none());
    assert!(decide_add(key, true, false, 8).is_none());
}

#[test]
fn utm_variants_share_one_key() {
    assert_eq!(
        url_key("https://en.wikipedia.org/wiki/B?utm_source=one"),
        url_key("https://en.wikipedia.org/wiki/B?utm_source=two")
    );
}

#[test]
fn pop_moves_first_key_to_visited() {
    assert!(decide_pop(None, 1).is_none());
    let key = b"https://en.wikipedia.org/wiki/C".to_vec();
    match decide_pop(Some(key.clone()), 9) {
        Some((url, StoreWrite::MoveToVisited { key: k, value })) => {
            assert_eq!(url, "https://en.wikipedia.org/wiki/C");
            assert_eq!(k, key);
            assert_eq!(value, 9u64.to_le_bytes().to_vec());
        }
        _ => panic!("expected a move"),
    }
}

#[test]
fn canonical_mark_uses_normalised_key() {
    match decide_mark_visited("https://en.wikipedia.org/wiki/X#s", 3) {
        StoreWrite::MoveToVisited { key, .. } => assert_eq!(key, url_key("https://en.wikipedia.org/wiki/X")),
        _ => panic!("expected a move"),
    }
}

#[test]
fn family_names() {
    assert_eq!(Family::Visited.name(), "visited");
    assert_eq!(Family::Frontier.name(), "frontier");
    assert_eq!(STATS_KEY, "__stats_pages_crawled__");
}

#[test]
fn dashboard_helpers() {
    assert_eq!(uptime_parts(3_725), (1, 2, 5));
    assert_eq!(next_frame(9, 10), 0);
    assert_eq!(next_frame(3, 10), 4);
    let errs: Vec<String> = (0..10).map(|i| format!("e{}", i)).collect();
    assert_eq!(newest(&errs, 8)[0], "e2");
    assert_eq!(newest(&errs, 8).len(), 8);
    assert_eq!(newest(&errs[..3].to_vec(), 8).len(), 3);
    assert_eq!(peak_rate(&vec![]), 1);
    assert_eq!(peak_rate(&vec![3, 9, 2]), 9);
}

#[test]
fn canonical_form_marked_then_discovery_dropped() {
    let page = webcrawler::page::parse_html(
        "<html><head><link rel=\"canonical\" href=\"https://en.wikipedia.org/wiki/X\"></head></html>".to_string(),
        "https://en.wikipedia.org/wiki/X?foo=1",
    );
    let canonical = webcrawler::page::canonical_to_mark(&page).expect("canonical differs from the request URL");
    let marked = match decide_mark_visited(&canonical, 1) {
        StoreWrite::MoveToVisited { key, .. } => key,
        _ => panic!("expected a move"),
    };
    let discovered = url_key("https://en.wikipedia.org/wiki/X");
    assert_eq!(marked, discovered);
    assert!(decide_add(discovered, true, false, 2).is_none());
}

#[test]
fn domain_counts() {
    let mut s = CrawlerStats::new(0, 0, 0);
    s.increment_domain("https://en.wikipedia.org/wiki/A");
    s.increment_domain("https://en.wikipedia.org/wiki/B");
    s.increment_domain("https://de.wikipedia.org/wiki/C");
    s.increment_domain("http://10.0.0.1/");
    s.increment_domain("not a url");
    assert_eq!(s.domain_hits("en.wikipedia.org"), 2);
    assert_eq!(s.domain_hits("de.wikipedia.org"), 1);
    assert_eq!(s.domain_hits("10.0.0.1"), 0);
}

#[test]
fn feeder_done_at_budget() {
    let mut s = CrawlerStats::new(9, 0, 0);
    assert!(!s.feeder_done(10));
    s.begin_dispatch(10);
    assert!(s.feeder_done(10));
}
