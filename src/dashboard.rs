//! What the terminal dashboard computes from the crawl's counters.
use vstd::prelude::*;

verus! {

/// How many of the most recent errors the dashboard shows.
pub const SHOWN_ERRORS: usize = 8;

/// An uptime in seconds as hours, minutes and seconds.
pub fn uptime_parts(secs: u64) -> (r: (u64, u64, u64))
    ensures
        r.0 == secs / 3600,
        r.1 == (secs % 3600) / 60,
        r.2 == secs % 60,
{
    (secs / 3600, (secs % 3600) / 60, secs % 60)
}

/// The spinner frame that follows `frame` in a cycle of `count`.
pub fn next_frame(frame: u8, count: u8) -> (r: u8)
    requires
        count > 0,
    ensures
        r == (frame + 1) % (count as int),
{
    ((frame as u16 + 1) % (count as u16)) as u8
}

/// The last `max` entries of `items`, oldest first (all of them when there
/// are fewer).
pub fn newest(items: &Vec<String>, max: usize) -> (r: Vec<String>)
    ensures
        r@ == items@.skip(if items@.len() > max {
            items@.len() - max
        } else {
            0
        }),
{
    let start = if items.len() > max {
        items.len() - max
    } else {
        0
    };
    let mut out: Vec<String> = Vec::new();
    let mut i = start;
    while i < items.len()
        invariant
            start <= i <= items@.len(),
            out@ == items@.subrange(start as int, i as int),
        decreases items@.len() - i,
    {
        out.push(items[i].clone());
        assert(out@ =~= items@.subrange(start as int, i + 1));
        i = i + 1;
    }
    assert(out@ =~= items@.skip(start as int));
    out
}

/// The largest rate sample, or 1 when there is none: the sparkline's scale.
pub fn peak_rate(history: &Vec<u64>) -> (r: u64)
    ensures
        history@.len() == 0 ==> r == 1,
        history@.len() > 0 ==> history@.contains(r) && forall|i: int|
            0 <= i < history@.len() ==> history@[i] <= r,
{
    if history.len() == 0 {
        return 1;
    }
    let mut best = history[0];
    let mut i: usize = 1;
    while i < history.len()
        invariant
            1 <= i <= history@.len(),
            history@.contains(best),
            forall|k: int| 0 <= k < i ==> history@[k] <= best,
        decreases history@.len() - i,
    {
        if history[i] > best {
            best = history[i];
        }
        i = i + 1;
    }
    best
}

} // verus!
