//! The URL store's logic: keys and values as the key-value store holds
//! them, what each operation writes, and the frontier/visited sets that
//! those writes maintain.
use vstd::prelude::*;
use vstd::string::StrSliceExecFns;
use vstd::utf8::{decode_utf8, encode_utf8, valid_utf8};
use vstd::set_lib::lemma_set_empty_equivalency_len;
use crate::urls::{normalize_url, normalized};

verus! {

/// The key, in the visited family, that holds the persisted dispatch count.
pub const STATS_KEY: &'static str = "__stats_pages_crawled__";

/// The store's two namespaces.
#[derive(Clone, Copy, PartialEq, Eq, Debug, Structural)]
pub enum Family {
    /// URLs already dispatched, or canonical forms of fetched pages.
    Visited,
    /// URLs known and not yet dispatched.
    Frontier,
}

impl Family {
    /// The column-family name of the namespace.
    pub fn name(&self) -> (r: &'static str)
        ensures
            r@ == match self {
                Family::Visited => "visited"@,
                Family::Frontier => "frontier"@,
            },
    {
        match self {
            Family::Visited => "visited",
            Family::Frontier => "frontier",
        }
    }
}

/// The key under which the store keeps a URL: its normalised form in UTF-8.
pub open spec fn key_of(url: Seq<char>) -> Seq<u8> {
    encode_utf8(normalized(url))
}

/// The key of `url` in either namespace.
pub fn url_key(url: &str) -> (r: Vec<u8>)
    ensures
        r@ == key_of(url@),
{
    let n = normalize_url(url);
    n.as_str().as_bytes_vec()
}

/// `256` to the power `k`.
pub open spec fn pow256(k: nat) -> nat
    decreases k,
{
    if k == 0 {
        1
    } else {
        256 * pow256((k - 1) as nat)
    }
}

/// The number that little-endian bytes `b` stand for.
pub open spec fn le_value(b: Seq<u8>) -> nat
    decreases b.len(),
{
    if b.len() == 0 {
        0
    } else {
        b[0] as nat + 256 * le_value(b.drop_first())
    }
}

/// The `len` low bytes of `n`, least significant first.
pub open spec fn le_bytes_of(n: nat, len: nat) -> Seq<u8>
    decreases len,
{
    if len == 0 {
        Seq::empty()
    } else {
        seq![(n % 256) as u8] + le_bytes_of(n / 256, (len - 1) as nat)
    }
}

/// The eight-byte little-endian value under which the store keeps `n`.
pub fn le_bytes(n: u64) -> (r: Vec<u8>)
    ensures
        r@ == le_bytes_of(n as nat, 8),
{
    let mut out: Vec<u8> = Vec::new();
    let mut m: u64 = n;
    let mut i: usize = 0;
    while i < 8
        invariant
            i <= 8,
            out@ + le_bytes_of(m as nat, (8 - i) as nat) == le_bytes_of(n as nat, 8),
        decreases 8 - i,
    {
        let ghost rest = le_bytes_of(m as nat, (8 - i) as nat);
        assert(rest == seq![(m as nat % 256) as u8] + le_bytes_of(m as nat / 256, (8 - i - 1) as nat));
        out.push((m % 256) as u8);
        m = m / 256;
        i = i + 1;
        assert(out@ + le_bytes_of(m as nat, (8 - i) as nat) =~= le_bytes_of(n as nat, 8));
    }
    assert(le_bytes_of(m as nat, 0) =~= Seq::<u8>::empty());
    assert(out@ =~= le_bytes_of(n as nat, 8));
    out
}

proof fn lemma_le_value_bound(b: Seq<u8>)
    ensures
        le_value(b) < pow256(b.len()),
    decreases b.len(),
{
    if b.len() > 0 {
        lemma_le_value_bound(b.drop_first());
        let v = le_value(b.drop_first());
        let p = pow256(b.drop_first().len());
        assert(b[0] as nat + 256 * v < 256 * p) by (nonlinear_arith)
            requires
                v < p,
                b[0] < 256,
        ;
    }
}

proof fn lemma_pow256_8()
    ensures
        pow256(8) == 0x1_0000_0000_0000_0000,
{
    reveal_with_fuel(pow256, 9);
}

/// The count that a stored value holds: eight little-endian bytes; any
/// other value reads as zero.
pub fn counter_value(bytes: &[u8]) -> (r: u64)
    ensures
        bytes@.len() == 8 ==> r == le_value(bytes@),
        bytes@.len() != 8 ==> r == 0,
{
    if bytes.len() != 8 {
        return 0;
    }
    let mut acc: u64 = 0;
    let mut i: usize = 8;
    proof {
        assert(bytes@.skip(8) =~= Seq::<u8>::empty());
    }
    while i > 0
        invariant
            bytes@.len() == 8,
            i <= 8,
            acc == le_value(bytes@.skip(i as int)),
        decreases i,
    {
        proof {
            assert(bytes@.skip(i - 1).drop_first() =~= bytes@.skip(i as int));
            lemma_le_value_bound(bytes@.skip(i - 1));
            lemma_pow256_8();
            lemma_pow256_mono((9 - i) as nat, 8);
        }
        acc = bytes[i - 1] as u64 + 256 * acc;
        i = i - 1;
    }
    assert(bytes@.skip(0) =~= bytes@);
    acc
}

proof fn lemma_pow256_mono(a: nat, b: nat)
    requires
        a <= b,
    ensures
        pow256(a) <= pow256(b),
    decreases b,
{
    if a < b {
        lemma_pow256_mono(a, (b - 1) as nat);
    }
}

proof fn lemma_le_round_trip(n: nat, len: nat)
    requires
        n < pow256(len),
    ensures
        le_value(le_bytes_of(n, len)) == n,
    decreases len,
{
    if len > 0 {
        let p = pow256((len - 1) as nat);
        assert(n / 256 < p) by (nonlinear_arith)
            requires
                n < 256 * p,
        ;
        lemma_le_round_trip(n / 256, (len - 1) as nat);
        let b = le_bytes_of(n, len);
        assert(b.drop_first() =~= le_bytes_of(n / 256, (len - 1) as nat));
        assert(n % 256 + 256 * (n / 256) == n) by (nonlinear_arith);
    }
}

/// A count persisted with `le_bytes` reads back as the same count.
pub proof fn lemma_counter_round_trip(n: u64)
    ensures
        le_value(le_bytes_of(n as nat, 8)) == n,
        le_bytes_of(n as nat, 8).len() == 8,
{
    lemma_pow256_8();
    lemma_le_round_trip(n as nat, 8);
    lemma_le_len(n as nat, 8);
}

proof fn lemma_le_len(n: nat, len: nat)
    ensures
        le_bytes_of(n, len).len() == len,
    decreases len,
{
    if len > 0 {
        lemma_le_len(n / 256, (len - 1) as nat);
    }
}

/// Relies on `String::from_utf8_lossy`, which returns valid UTF-8 unchanged.
#[verifier::external_body]
fn text_of_key(bytes: &[u8]) -> (r: String)
    ensures
        valid_utf8(bytes@) ==> r@ == decode_utf8(bytes@),
{
    String::from_utf8_lossy(bytes).into_owned()
}

/// A write that the store makes durable before the operation that asked for
/// it returns.
pub enum StoreWrite {
    /// Put `key` into the frontier with `value`.
    AddToFrontier { key: Vec<u8>, value: Vec<u8> },
    /// In one atomic batch, delete `key` from the frontier and put it into
    /// the visited namespace with `value`.
    MoveToVisited { key: Vec<u8>, value: Vec<u8> },
    /// Put the dispatch count under `STATS_KEY` in the visited namespace.
    SaveCounter { value: Vec<u8> },
}

/// The URL sets that the store holds, and its persisted dispatch count.
pub struct StoreModel {
    pub frontier: Set<Seq<u8>>,
    pub visited: Set<Seq<u8>>,
    pub counter: Option<nat>,
}

/// What a write does to the store.
pub open spec fn apply_write(m: StoreModel, w: StoreWrite) -> StoreModel {
    match w {
        StoreWrite::AddToFrontier { key, value } => StoreModel {
            frontier: m.frontier.insert(key@),
            ..m
        },
        StoreWrite::MoveToVisited { key, value } => StoreModel {
            frontier: m.frontier.remove(key@),
            visited: m.visited.insert(key@),
            ..m
        },
        StoreWrite::SaveCounter { value } => StoreModel {
            counter: Some(le_value(value@)),
            ..m
        },
    }
}

/// No URL key is both in the frontier and visited.
pub open spec fn disjoint(m: StoreModel) -> bool {
    m.frontier.disjoint(m.visited)
}

/// What `add_to_frontier` writes for `key`, given whether the store holds it
/// as visited and as frontier: the key with the time of insertion, unless
/// the store knows it already.
pub fn decide_add(key: Vec<u8>, in_visited: bool, in_frontier: bool, now_secs: u64) -> (r: Option<
    StoreWrite,
>)
    ensures
        r is None <==> (in_visited || in_frontier),
        r matches Some(w) ==> w matches StoreWrite::AddToFrontier { key: k, value: v } && k@
            == key@ && v@ == le_bytes_of(now_secs as nat, 8),
{
    if in_visited || in_frontier {
        None
    } else {
        Some(StoreWrite::AddToFrontier { key, value: le_bytes(now_secs) })
    }
}

/// What `pop_from_frontier` returns and writes, given the frontier's first
/// key: the URL that the key spells, moved to visited with the time of the
/// visit; nothing when the frontier is empty.
pub fn decide_pop(first: Option<Vec<u8>>, now_secs: u64) -> (r: Option<(String, StoreWrite)>)
    ensures
        r is None <==> first is None,
        r matches Some(p) ==> first matches Some(k) && p.1 matches StoreWrite::MoveToVisited {
            key: k2,
            value: v,
        } && k2@ == k@ && v@ == le_bytes_of(now_secs as nat, 8) && (valid_utf8(k@) ==> p.0@
            == decode_utf8(k@)),
{
    match first {
        None => None,
        Some(key) => {
            let url = text_of_key(key.as_slice());
            Some((url, StoreWrite::MoveToVisited { key, value: le_bytes(now_secs) }))
        },
    }
}

/// What `mark_visited` writes: the normalised URL moved to visited (out of
/// the frontier, should it be there) with the time of the visit.
pub fn decide_mark_visited(url: &str, now_secs: u64) -> (r: StoreWrite)
    ensures
        r matches StoreWrite::MoveToVisited { key: k, value: v } && k@ == key_of(url@) && v@
            == le_bytes_of(now_secs as nat, 8),
{
    StoreWrite::MoveToVisited { key: url_key(url), value: le_bytes(now_secs) }
}

/// What `set_pages_crawled` writes.
pub fn decide_save_counter(count: u64) -> (r: StoreWrite)
    ensures
        r matches StoreWrite::SaveCounter { value: v } && v@ == le_bytes_of(count as nat, 8)
            && v@.len() == 8 && le_value(v@) == count,
{
    proof {
        lemma_counter_round_trip(count);
    }
    StoreWrite::SaveCounter { value: le_bytes(count) }
}

/// Every write that the store's operations make keeps frontier and visited
/// apart, given that an insertion into the frontier is only made for a key
/// that is not visited (as `decide_add` ensures when told the truth).
pub proof fn lemma_writes_keep_disjoint(m: StoreModel, w: StoreWrite)
    requires
        disjoint(m),
        w matches StoreWrite::AddToFrontier { key, value } ==> !m.visited.contains(key@),
    ensures
        disjoint(apply_write(m, w)),
{
}

/// When `add_to_frontier` refuses a key after truthful lookups, the key is
/// in the frontier or visited.
pub proof fn lemma_refused_add_is_known(m: StoreModel, key: Seq<u8>, in_visited: bool, in_frontier: bool)
    requires
        in_visited == m.visited.contains(key),
        in_frontier == m.frontier.contains(key),
        in_visited || in_frontier,
    ensures
        m.frontier.contains(key) || m.visited.contains(key),
{
}

/// After the write of a pop (or of `mark_visited`) its key is visited and
/// out of the frontier.
pub proof fn lemma_moved_key_is_visited(m: StoreModel, key: Vec<u8>, value: Vec<u8>)
    ensures
        apply_write(m, StoreWrite::MoveToVisited { key, value }).visited.contains(key@),
        !apply_write(m, StoreWrite::MoveToVisited { key, value }).frontier.contains(key@),
{
}

/// Adding one key twice: the first add writes it into the frontier, so the
/// truthful lookups of the second find it there and `decide_add` refuses.
pub proof fn lemma_second_add_refused(m: StoreModel, key: Vec<u8>, value: Vec<u8>)
    ensures
        apply_write(m, StoreWrite::AddToFrontier { key, value }).frontier.contains(key@),
{
}

/// The write that `decide_pop` returns for a found key is one step of a
/// `pop_run`: it moves that key, and only it, from frontier to visited.
pub proof fn lemma_pop_write_is_pop_step(m: StoreModel, key: Vec<u8>, value: Vec<u8>)
    ensures
        apply_write(m, StoreWrite::MoveToVisited { key, value }) == pop_model(m, Some(key@)),
{
}

/// The store after a pop that found `first` as the frontier's first key.
pub open spec fn pop_model(m: StoreModel, first: Option<Seq<u8>>) -> StoreModel {
    match first {
        None => m,
        Some(k) => StoreModel { frontier: m.frontier.remove(k), visited: m.visited.insert(k), ..m },
    }
}

/// What the key-value store reports as the frontier's first key: nothing
/// exactly when the frontier is empty, else one of its keys.
pub open spec fn first_key_of(m: StoreModel, first: Option<Seq<u8>>) -> bool {
    &&& (first is None <==> m.frontier.is_empty())
    &&& (first matches Some(k) ==> m.frontier.contains(k))
}

/// Pops `ms[i] -> ms[i + 1]`, one after the other, each finding `firsts[i]`.
pub open spec fn pop_run(ms: Seq<StoreModel>, firsts: Seq<Option<Seq<u8>>>) -> bool {
    &&& ms.len() == firsts.len() + 1
    &&& forall|i: int|
        0 <= i < firsts.len() ==> first_key_of(#[trigger] ms[i], firsts[i]) && ms[i + 1] == pop_model(
            ms[i],
            firsts[i],
        )
}

proof fn lemma_pop_run_prefix(ms: Seq<StoreModel>, firsts: Seq<Option<Seq<u8>>>, n: nat, i: nat)
    requires
        pop_run(ms, firsts),
        ms[0].frontier.finite(),
        ms[0].frontier.len() == n,
        i <= n,
        i < ms.len(),
    ensures
        ms[i as int].frontier.finite(),
        ms[i as int].frontier.len() == n - i,
        forall|j: int| 0 <= j < i ==> (#[trigger] firsts[j]) is Some && ms[0].frontier.contains(firsts[j]->0)
            && !ms[i as int].frontier.contains(firsts[j]->0),
        forall|j: int, k: int| 0 <= j < k < i ==> #[trigger] firsts[j] != #[trigger] firsts[k],
    decreases i,
{
    if i > 0 {
        let p = (i - 1) as nat;
        lemma_pop_run_prefix(ms, firsts, n, p);
        let f = ms[p as int].frontier;
        assert(first_key_of(ms[p as int], firsts[p as int]));
        lemma_set_empty_equivalency_len(f);
        assert(!f.is_empty()) by {
            if f.is_empty() {
                assert(f.len() == 0);
            }
        }
        let k = firsts[p as int]->0;
        assert(ms[i as int].frontier == f.remove(k));
        assert forall|j: int| 0 <= j < i implies (#[trigger] firsts[j]) is Some && ms[0].frontier.contains(
            firsts[j]->0,
        ) && !ms[i as int].frontier.contains(firsts[j]->0) by {
            if j == p {
                assert(ms[0].frontier.contains(k)) by {
                    lemma_subset_of_start(ms, firsts, p);
                }
            }
        }
        assert forall|j: int, l: int| 0 <= j < l < i implies #[trigger] firsts[j] != #[trigger] firsts[l] by {
            if l == p {
                assert(!f.contains(firsts[j]->0));
                assert(f.contains(k));
            }
        }
    }
}

proof fn lemma_subset_of_start(ms: Seq<StoreModel>, firsts: Seq<Option<Seq<u8>>>, i: nat)
    requires
        pop_run(ms, firsts),
        i < ms.len(),
    ensures
        ms[i as int].frontier.subset_of(ms[0].frontier),
    decreases i,
{
    if i > 0 {
        lemma_subset_of_start(ms, firsts, (i - 1) as nat);
        assert(first_key_of(ms[i - 1], firsts[i - 1]));
    }
}

/// Popping a frontier of `n` keys `n + 1` times, with nothing added in
/// between: the first `n` pops return distinct keys that were in the
/// frontier, and the last finds it empty.
pub proof fn lemma_pops_drain(ms: Seq<StoreModel>, firsts: Seq<Option<Seq<u8>>>)
    requires
        pop_run(ms, firsts),
        ms[0].frontier.finite(),
        firsts.len() == ms[0].frontier.len() + 1,
    ensures
        forall|i: int| 0 <= i < firsts.len() - 1 ==> (#[trigger] firsts[i]) is Some && ms[0].frontier.contains(
            firsts[i]->0,
        ),
        forall|i: int, j: int| 0 <= i < j < firsts.len() - 1 ==> #[trigger] firsts[i] != #[trigger] firsts[j],
        firsts.last() is None,
{
    let n = ms[0].frontier.len();
    lemma_pop_run_prefix(ms, firsts, n, n);
    let f = ms[n as int].frontier;
    lemma_set_empty_equivalency_len(f);
    assert(first_key_of(ms[n as int], firsts[n as int]));
    assert(f.is_empty());
}

} // verus!
