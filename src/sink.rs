//! Batching for the append-only JSONL output: which serialised records wait,
//! and when the batch is written out.
use vstd::prelude::*;
use crate::fetch::byte_len;

verus! {

/// A batch is written once it holds this many records...
pub const BATCH_SIZE: usize = 100;

/// ...or this many bytes, counting a newline after each record (1 MiB)...
pub const MAX_BUFFER_SIZE: u64 = 1048576;

/// ...or this long, in milliseconds, has passed since the last write.
pub const FLUSH_INTERVAL_MS: u64 = 5000;

/// Bytes that `lines` take in the file, a newline after each.
pub open spec fn batch_bytes(lines: Seq<String>) -> int
    decreases lines.len(),
{
    if lines.len() == 0 {
        0
    } else {
        batch_bytes(lines.drop_last()) + byte_len(lines.last()@) + 1
    }
}

/// Serialised records waiting to be appended to the output file.
pub struct OutputBatch {
    batch: Vec<String>,
    batch_bytes: u64,
    last_flush_ms: u64,
}

impl OutputBatch {
    /// The waiting records, oldest first.
    pub closed spec fn lines(self) -> Seq<String> {
        self.batch@
    }

    /// The byte count kept for the waiting records; it saturates at `u64::MAX`.
    pub closed spec fn bytes(self) -> u64 {
        self.batch_bytes
    }

    /// When the batch was last written out.
    pub closed spec fn last_flush(self) -> u64 {
        self.last_flush_ms
    }

    /// The byte count matches the waiting records, up to saturation.
    pub open spec fn wf(self) -> bool {
        self.bytes() == if batch_bytes(self.lines()) > u64::MAX {
            u64::MAX as int
        } else {
            batch_bytes(self.lines())
        }
    }

    /// An empty batch, as if written out at `now_ms`.
    pub fn new(now_ms: u64) -> (r: Self)
        ensures
            r.lines() == Seq::<String>::empty(),
            r.bytes() == 0,
            r.last_flush() == now_ms,
            r.wf(),
    {
        OutputBatch { batch: Vec::new(), batch_bytes: 0, last_flush_ms: now_ms }
    }

    /// Queues one serialised record.
    pub fn add_to_batch(&mut self, line: String)
        ensures
            final(self).lines() == old(self).lines().push(line),
            final(self).bytes() == if old(self).bytes() + byte_len(line@) + 1 > u64::MAX {
                u64::MAX as int
            } else {
                old(self).bytes() + byte_len(line@) + 1
            },
            final(self).last_flush() == old(self).last_flush(),
            old(self).wf() ==> final(self).wf(),
    {
        let n = line.as_str().len() as u64;
        let ghost before = self.batch@;
        self.batch_bytes = if n < u64::MAX - self.batch_bytes {
            self.batch_bytes + n + 1
        } else {
            u64::MAX
        };
        self.batch.push(line);
        assert(self.batch@.drop_last() =~= before);
    }

    /// Whether the batch is due to be written at `now_ms`: it holds a hundred
    /// records, or a mebibyte, or five seconds have passed since the last write.
    pub fn should_flush(&self, now_ms: u64) -> (r: bool)
        ensures
            r == (self.lines().len() >= BATCH_SIZE || self.bytes() >= MAX_BUFFER_SIZE || (now_ms
                >= self.last_flush() && now_ms - self.last_flush() >= FLUSH_INTERVAL_MS)),
    {
        self.batch.len() >= BATCH_SIZE || self.batch_bytes >= MAX_BUFFER_SIZE || (now_ms
            >= self.last_flush_ms && now_ms - self.last_flush_ms >= FLUSH_INTERVAL_MS)
    }

    /// Hands over the waiting records, oldest first, to be written out at
    /// `now_ms`, and empties the batch. An empty batch keeps its time of last write.
    pub fn flush(&mut self, now_ms: u64) -> (r: Vec<String>)
        ensures
            r@ == old(self).lines(),
            final(self).lines() == Seq::<String>::empty(),
            final(self).bytes() == 0,
            final(self).last_flush() == if old(self).lines().len() == 0 {
                old(self).last_flush()
            } else {
                now_ms
            },
            final(self).wf(),
    {
        if self.batch.len() == 0 {
            assert(self.batch@ =~= Seq::<String>::empty());
            self.batch_bytes = 0;
            return Vec::new();
        }
        let mut out: Vec<String> = Vec::new();
        std::mem::swap(&mut out, &mut self.batch);
        self.batch_bytes = 0;
        self.last_flush_ms = now_ms;
        out
    }
}

} // verus!
