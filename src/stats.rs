//! The crawl's counters, its recent errors and its stop flag: the state that
//! workers update and the dashboard reads.
use vstd::prelude::*;
use std::collections::VecDeque;
use crate::keyed::{entries_view, find_last, last_seen, set_entry};
use crate::urls::{parse_url, url_parse_result};

verus! {

/// How many recent errors are kept.
pub const ERROR_CAPACITY: usize = 10;

/// How many per-second rate samples are kept.
pub const RATE_HISTORY_CAPACITY: usize = 60;

/// `s` with `x` appended, keeping only the newest `cap` entries.
pub open spec fn ring_push<T>(s: Seq<T>, x: T, cap: nat) -> Seq<T> {
    let t = s.push(x);
    if t.len() > cap {
        t.skip(t.len() - cap)
    } else {
        t
    }
}

/// Appends `x` to `q`, evicting from the front until at most `cap` remain.
fn ring_append<T>(q: &mut VecDeque<T>, x: T, cap: usize)
    ensures
        final(q)@ == ring_push(old(q)@, x, cap as nat),
{
    q.push_back(x);
    let ghost t = q@;
    while q.len() > cap
        invariant
            t.len() >= q@.len(),
            q@ == t.skip(t.len() - q@.len()),
            t.len() > cap ==> q@.len() >= cap,
            t.len() <= cap ==> q@.len() == t.len(),
        decreases q@.len(),
    {
        q.pop_front();
        assert(q@ =~= t.skip(t.len() - q@.len()));
    }
    proof {
        if t.len() <= cap {
            assert(t.skip(0) =~= t);
        }
    }
}

pub struct CrawlerStats {
    pages_crawled: usize,
    pages_written: usize,
    queue_size: usize,
    active_workers: usize,
    errors: VecDeque<String>,
    rate_history: VecDeque<u64>,
    domain_counts: Vec<(String, usize)>,
    should_stop: bool,
}

impl CrawlerStats {
    /// Pages dispatched so far, this run and earlier ones.
    pub closed spec fn crawled(self) -> nat {
        self.pages_crawled as nat
    }

    /// Pages handed to the output sink.
    pub closed spec fn written(self) -> nat {
        self.pages_written as nat
    }

    /// URLs sent to the workers and not yet taken by one.
    pub closed spec fn queued(self) -> nat {
        self.queue_size as nat
    }

    /// Workers between taking a URL and finishing with it.
    pub closed spec fn active(self) -> nat {
        self.active_workers as nat
    }

    /// The recent errors, oldest first.
    pub closed spec fn error_log(self) -> Seq<String> {
        self.errors@
    }

    /// The recent per-second rates, oldest first.
    pub closed spec fn rates(self) -> Seq<u64> {
        self.rate_history@
    }

    /// The per-domain page counts as kept.
    pub closed spec fn domains(self) -> Seq<(Seq<char>, usize)> {
        entries_view(self.domain_counts@)
    }

    /// Pages written per domain name.
    pub closed spec fn domain_count(self, domain: Seq<char>) -> nat {
        match last_seen(entries_view(self.domain_counts@), domain) {
            Some(n) => n as nat,
            None => 0,
        }
    }

    pub closed spec fn stopping(self) -> bool {
        self.should_stop
    }

    /// No more pages were written than dispatched, counting each page that a
    /// worker holds as not yet written.
    pub open spec fn balanced(self) -> bool {
        self.written() + self.active() <= self.crawled()
    }

    /// Counters for a run that resumes after `pages_crawled` dispatched pages.
    pub fn new(pages_crawled: usize, pages_written: usize, queue_size: usize) -> (r: Self)
        ensures
            r.crawled() == pages_crawled,
            r.written() == pages_written,
            r.queued() == queue_size,
            r.active() == 0,
            r.error_log() == Seq::<String>::empty(),
            r.rates() == Seq::<u64>::empty(),
            forall|d: Seq<char>| #[trigger] r.domain_count(d) == 0,
            !r.stopping(),
    {
        CrawlerStats {
            pages_crawled,
            pages_written,
            queue_size,
            active_workers: 0,
            errors: VecDeque::with_capacity(ERROR_CAPACITY),
            rate_history: VecDeque::with_capacity(RATE_HISTORY_CAPACITY),
            domain_counts: Vec::new(),
            should_stop: false,
        }
    }

    /// Counts one more page for the domain of `url`; a URL without a domain
    /// name (unparsable, or with an IP host) counts for nothing.
    pub fn increment_domain(&mut self, url: &str)
        ensures
            match url_parse_result(url@) {
                Some(p) => match p.domain {
                    Some(d) => final(self).domain_count(d) == if old(self).domain_count(d) < usize::MAX {
                        old(self).domain_count(d) + 1
                    } else {
                        old(self).domain_count(d)
                    } && forall|e: Seq<char>|
                        e != d ==> #[trigger] final(self).domain_count(e) == old(self).domain_count(e),
                    None => forall|e: Seq<char>|
                        #[trigger] final(self).domain_count(e) == old(self).domain_count(e),
                },
                None => forall|e: Seq<char>|
                    #[trigger] final(self).domain_count(e) == old(self).domain_count(e),
            },
            final(self).crawled() == old(self).crawled(),
            final(self).written() == old(self).written(),
            final(self).queued() == old(self).queued(),
            final(self).active() == old(self).active(),
            final(self).error_log() == old(self).error_log(),
            final(self).rates() == old(self).rates(),
            final(self).stopping() == old(self).stopping(),
    {
        let domain = match parse_url(url) {
            Some(p) => p.domain,
            None => None,
        };
        if let Some(d) = domain {
            let current = match find_last(&self.domain_counts, d.as_str()) {
                Some(i) => self.domain_counts[i].1,
                None => 0,
            };
            let next = if current < usize::MAX {
                current + 1
            } else {
                current
            };
            set_entry(&mut self.domain_counts, d.as_str(), next);
        }
    }

    /// The pages counted for `domain`.
    pub fn domain_hits(&self, domain: &str) -> (r: usize)
        ensures
            r == self.domain_count(domain@),
    {
        match find_last(&self.domain_counts, domain) {
            Some(i) => self.domain_counts[i].1,
            None => 0,
        }
    }

    /// Records an error; the oldest goes when ten are kept.
    pub fn add_error(&mut self, error: String)
        ensures
            final(self).error_log() == ring_push(old(self).error_log(), error, ERROR_CAPACITY as nat),
            final(self).crawled() == old(self).crawled(),
            final(self).written() == old(self).written(),
            final(self).queued() == old(self).queued(),
            final(self).active() == old(self).active(),
            final(self).rates() == old(self).rates(),
            final(self).stopping() == old(self).stopping(),
            final(self).domains() == old(self).domains(),
    {
        ring_append(&mut self.errors, error, ERROR_CAPACITY);
    }

    /// Records a per-second rate sample; the oldest goes when sixty are kept.
    pub fn add_rate(&mut self, rate: u64)
        ensures
            final(self).rates() == ring_push(old(self).rates(), rate, RATE_HISTORY_CAPACITY as nat),
            final(self).crawled() == old(self).crawled(),
            final(self).written() == old(self).written(),
            final(self).queued() == old(self).queued(),
            final(self).active() == old(self).active(),
            final(self).error_log() == old(self).error_log(),
            final(self).stopping() == old(self).stopping(),
            final(self).domains() == old(self).domains(),
    {
        ring_append(&mut self.rate_history, rate, RATE_HISTORY_CAPACITY);
    }

    pub fn should_stop(&self) -> (r: bool)
        ensures
            r == self.stopping(),
    {
        self.should_stop
    }

    /// Asks the feeder and the workers to stop.
    pub fn stop(&mut self)
        ensures
            final(self).stopping(),
            final(self).crawled() == old(self).crawled(),
            final(self).written() == old(self).written(),
            final(self).queued() == old(self).queued(),
            final(self).active() == old(self).active(),
            final(self).error_log() == old(self).error_log(),
            final(self).rates() == old(self).rates(),
            final(self).domains() == old(self).domains(),
    {
        self.should_stop = true;
    }

    pub fn pages_crawled(&self) -> (r: usize)
        ensures
            r == self.crawled(),
    {
        self.pages_crawled
    }

    pub fn pages_written(&self) -> (r: usize)
        ensures
            r == self.written(),
    {
        self.pages_written
    }

    pub fn queue_size(&self) -> (r: usize)
        ensures
            r == self.queued(),
    {
        self.queue_size
    }

    pub fn active_workers(&self) -> (r: usize)
        ensures
            r == self.active(),
    {
        self.active_workers
    }

    /// The recent errors, oldest first.
    pub fn errors(&self) -> (r: Vec<String>)
        ensures
            r@ == self.error_log(),
    {
        let mut out: Vec<String> = Vec::new();
        let mut i: usize = 0;
        while i < self.errors.len()
            invariant
                i <= self.errors@.len(),
                out@ == self.errors@.take(i as int),
            decreases self.errors@.len() - i,
        {
            out.push(self.errors[i].clone());
            assert(out@ =~= self.errors@.take(i + 1));
            i = i + 1;
        }
        assert(out@ =~= self.errors@);
        out
    }

    /// The recent per-second rates, oldest first.
    pub fn rate_history(&self) -> (r: Vec<u64>)
        ensures
            r@ == self.rates(),
    {
        let mut out: Vec<u64> = Vec::new();
        let mut i: usize = 0;
        while i < self.rate_history.len()
            invariant
                i <= self.rate_history@.len(),
                out@ == self.rate_history@.take(i as int),
            decreases self.rate_history@.len() - i,
        {
            out.push(self.rate_history[i]);
            assert(out@ =~= self.rate_history@.take(i + 1));
            i = i + 1;
        }
        assert(out@ =~= self.rate_history@);
        out
    }
    /// The feeder put one more URL on the processing channel.
    pub fn enqueue(&mut self)
        ensures
            final(self).queued() == if old(self).queued() < usize::MAX {
                old(self).queued() + 1
            } else {
                old(self).queued()
            },
            final(self).crawled() == old(self).crawled(),
            final(self).written() == old(self).written(),
            final(self).active() == old(self).active(),
            final(self).error_log() == old(self).error_log(),
            final(self).rates() == old(self).rates(),
            final(self).stopping() == old(self).stopping(),
            final(self).domains() == old(self).domains(),
    {
        if self.queue_size < usize::MAX {
            self.queue_size = self.queue_size + 1;
        }
    }

    /// Whether the feeder is finished: a stop was asked or `max_pages`
    /// pages have been dispatched.
    pub fn feeder_done(&self, max_pages: usize) -> (r: bool)
        ensures
            r == (self.stopping() || self.crawled() >= max_pages),
    {
        self.should_stop || self.pages_crawled >= max_pages
    }

    /// Whether the feeder should take another URL from the frontier: the
    /// processing channel is under half full and no stop was asked.
    pub fn feeder_should_pop(&self, capacity: usize) -> (r: bool)
        ensures
            r == (self.queued() < capacity / 2 && !self.stopping()),
    {
        self.queue_size < capacity / 2 && !self.should_stop
    }

    /// A worker takes a URL off the processing channel. The dispatch counter
    /// moves on by one; the worker goes ahead (and counts as active) only if
    /// the new count is within `max_pages` and no stop was asked.
    pub fn begin_dispatch(&mut self, max_pages: usize) -> (r: bool)
        ensures
            final(self).queued() == if old(self).queued() > 0 {
                old(self).queued() - 1
            } else {
                0
            },
            final(self).crawled() == if old(self).crawled() < usize::MAX {
                old(self).crawled() + 1
            } else {
                old(self).crawled()
            },
            final(self).crawled() >= old(self).crawled(),
            r == (old(self).crawled() < usize::MAX && old(self).crawled() + 1 <= max_pages
                && !old(self).stopping() && old(self).active() < usize::MAX),
            final(self).active() == if r {
                old(self).active() + 1
            } else {
                old(self).active()
            },
            final(self).written() == old(self).written(),
            final(self).error_log() == old(self).error_log(),
            final(self).rates() == old(self).rates(),
            final(self).stopping() == old(self).stopping(),
            final(self).domains() == old(self).domains(),
            old(self).balanced() ==> final(self).balanced(),
    {
        if self.queue_size > 0 {
            self.queue_size = self.queue_size - 1;
        }
        if self.pages_crawled == usize::MAX {
            return false;
        }
        self.pages_crawled = self.pages_crawled + 1;
        if self.pages_crawled > max_pages || self.should_stop || self.active_workers == usize::MAX {
            return false;
        }
        self.active_workers = self.active_workers + 1;
        true
    }

    /// A worker is done with its URL; `written` says whether its page went to
    /// the output sink. Returns the dispatch count when it is a multiple of
    /// ten and a page was written: the count to persist.
    pub fn finish_dispatch(&mut self, written: bool) -> (persist: Option<usize>)
        ensures
            old(self).active() > 0 ==> final(self).active() == old(self).active() - 1,
            old(self).active() == 0 ==> final(self).active() == 0,
            final(self).written() == if written && old(self).active() > 0 && old(self).written()
                < usize::MAX {
                old(self).written() + 1
            } else {
                old(self).written()
            },
            persist == if written && old(self).active() > 0 && old(self).crawled() % 10 == 0 {
                Some(old(self).crawled() as usize)
            } else {
                None
            },
            final(self).crawled() == old(self).crawled(),
            final(self).queued() == old(self).queued(),
            final(self).error_log() == old(self).error_log(),
            final(self).rates() == old(self).rates(),
            final(self).stopping() == old(self).stopping(),
            final(self).domains() == old(self).domains(),
            old(self).balanced() ==> final(self).balanced(),
    {
        if self.active_workers == 0 {
            return None;
        }
        self.active_workers = self.active_workers - 1;
        if !written {
            return None;
        }
        if self.pages_written < usize::MAX {
            self.pages_written = self.pages_written + 1;
        }
        if self.pages_crawled % 10 == 0 {
            Some(self.pages_crawled)
        } else {
            None
        }
    }

    /// Takes the once-a-second rate sample: the pages dispatched since
    /// `last_pages`. Returns the count to pass as `last_pages` next time.
    pub fn sample_rate(&mut self, last_pages: usize) -> (r: usize)
        ensures
            r == old(self).crawled(),
            final(self).rates() == ring_push(
                old(self).rates(),
                (if old(self).crawled() >= last_pages {
                    old(self).crawled() - last_pages
                } else {
                    0
                }) as u64,
                RATE_HISTORY_CAPACITY as nat,
            ),
            final(self).crawled() == old(self).crawled(),
            final(self).written() == old(self).written(),
            final(self).queued() == old(self).queued(),
            final(self).active() == old(self).active(),
            final(self).error_log() == old(self).error_log(),
            final(self).stopping() == old(self).stopping(),
            final(self).domains() == old(self).domains(),
    {
        let n = self.pages_crawled;
        let diff = if n >= last_pages {
            n - last_pages
        } else {
            0
        };
        self.add_rate(diff as u64);
        n
    }
}

/// Counters that start balanced stay balanced: whatever the workers do, no
/// more pages reach the output than were dispatched.
pub proof fn lemma_written_within_dispatched(s: CrawlerStats)
    requires
        s.balanced(),
    ensures
        s.written() <= s.crawled(),
{
}

} // verus!
