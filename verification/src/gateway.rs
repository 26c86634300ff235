//! The gateway's choice of where to read a blob from: every store copy of the
//! blob itself, and every copy of a blob that it is a slice of (read with a
//! byte range), ordered by the stores' priority.

use vstd::prelude::*;
use vstd::multiset::Multiset;
use vstd::set_lib::{lemma_int_range, lemma_len_subset, lemma_map_size, set_int_range};
use crate::http_content_range::{ContentRange, matches_content_range, spec_parse_content_range};
use crate::proto::{BlobInfo, BlobOperation, GetBlobRefResponse, Operation};

verus! {

broadcast use vstd::seq_lib::group_to_multiset_ensures;

/// A store that the gateway may read from or write to.
#[derive(Clone, Debug)]
pub struct StoreServerConfig {
    pub url: String,
    pub priority: i32,
    pub can_read: bool,
    pub can_write: bool,
}

/// Where the blob manager is.
#[derive(Clone, Debug)]
pub struct ManagerServerConfig {
    pub url: String,
}

/// The gateway's configuration: the manager, and the stores by name.
#[derive(Clone, Debug)]
pub struct Config {
    pub manager: ManagerServerConfig,
    pub stores: Vec<(String, StoreServerConfig)>,
}

/// A place to read the requested blob from: the location (an index into the
/// manager's locations), the store that holds it (an index into the
/// configured stores) and, when the location holds a larger blob, the range
/// of it to read.
#[derive(Clone, Copy, Debug, PartialEq, Eq)]
pub struct ReadCandidate {
    pub location: usize,
    pub store: usize,
    pub range: Option<ContentRange>,
}

/// The requested blob, then the related blobs.
pub open spec fn all_blobs(info: GetBlobRefResponse) -> Seq<BlobInfo> {
    seq![info.blob] + info.related_blobs@
}

/// The last of the first `n` blobs with identifier `id`.
pub open spec fn last_index_with_id(blobs: Seq<BlobInfo>, id: Seq<u8>, n: int) -> Option<int>
    decreases n,
{
    if n <= 0 {
        None
    } else if blobs[n - 1].id@ == id {
        Some(n - 1)
    } else {
        last_index_with_id(blobs, id, n - 1)
    }
}

/// The blob that an identifier stands for: the last one listed with it.
pub open spec fn blob_index(info: GetBlobRefResponse, id: Seq<u8>) -> Option<int> {
    last_index_with_id(all_blobs(info), id, all_blobs(info).len() as int)
}

/// Where the search starts: the requested blob, from its first byte. A
/// search state is a blob (an index into `all_blobs`) and the position in it
/// where the requested contents would start.
pub open spec fn initial_key(info: GetBlobRefResponse) -> (int, int) {
    (blob_index(info, info.blob.id@)->0, 0)
}

/// The blob that a state looks at.
pub open spec fn key_blob(info: GetBlobRefResponse, key: (int, int)) -> BlobInfo {
    if key == initial_key(info) {
        info.blob
    } else {
        all_blobs(info)[key.0]
    }
}

pub open spec fn opt_or(o: Option<u64>, d: u64) -> u64 {
    match o {
        Some(v) => v,
        None => d,
    }
}

/// The state that `op` leads to from `key`: when `op` makes the state's blob
/// a slice of another blob and covers the requested contents whole, the
/// source blob and where the contents start in it. (Where the source is
/// unknown or that start does not fit in 64 bits, the search cannot go on;
/// `state_breaks` names those inputs.)
pub open spec fn slice_step(info: GetBlobRefResponse, key: (int, int), op: BlobOperation) -> Option<
    (int, int),
> {
    let blob = key_blob(info, key);
    let req = info.blob.size;
    let s = key.1;
    if op.dst_blob_id@ != blob.id@ {
        None
    } else {
        match op.operation {
            Some(Operation::Slice(sl)) => {
                let dst_start = opt_or(sl.dst_start, 0);
                let size = opt_or(sl.size, blob.size);
                if s < dst_start || s + req > dst_start + size {
                    None
                } else {
                    match blob_index(info, op.src_blob_id@) {
                        Some(j) => {
                            let ns = opt_or(sl.src_start, 0) + (s - dst_start);
                            if ns <= u64::MAX {
                                Some((j, ns))
                            } else {
                                None
                            }
                        },
                        None => None,
                    }
                }
            },
            None => None,
        }
    }
}

/// The states reached from the start in at most `d` steps.
pub open spec fn reach(info: GetBlobRefResponse, d: nat) -> Set<(int, int)>
    decreases d,
{
    if d == 0 {
        set![initial_key(info)]
    } else {
        let prev = reach(info, (d - 1) as nat);
        prev.union(
            Set::new(
                |y: (int, int)|
                    exists|x: (int, int), i: int|
                        #![trigger prev.contains(x), info.operations@[i]]
                        prev.contains(x) && 0 <= i < info.operations@.len() && slice_step(
                            info,
                            x,
                            info.operations@[i],
                        ) == Some(y),
            ),
        )
    }
}

/// The states that the search reaches.
pub open spec fn reachable(info: GetBlobRefResponse, key: (int, int)) -> bool {
    exists|d: nat| #[trigger] reach(info, d).contains(key)
}

/// The first configured store named `name`, from index `i` on.
pub open spec fn store_index_from(stores: Seq<(String, StoreServerConfig)>, name: Seq<char>, i: int) -> Option<int>
    decreases stores.len() - i,
{
    if i < 0 || i >= stores.len() {
        None
    } else if stores[i].0@ == name {
        Some(i)
    } else {
        store_index_from(stores, name, i + 1)
    }
}

pub open spec fn store_index(config: Config, name: Seq<char>) -> Option<int> {
    store_index_from(config.stores@, name, 0)
}

/// The range to read for a state: none for the requested blob itself.
pub open spec fn key_range(info: GetBlobRefResponse, key: (int, int)) -> Option<ContentRange> {
    let blob = key_blob(info, key);
    if blob.id@ == info.blob.id@ {
        None
    } else {
        Some(
            ContentRange {
                start: key.1 as u64,
                end: (key.1 + info.blob.size - 1) as u64,
                entire_size: blob.size,
            },
        )
    }
}

/// `c` is the candidate that a state yields for one of its blob's locations
/// whose store is configured and readable.
pub open spec fn produces(info: GetBlobRefResponse, config: Config, key: (int, int), c: ReadCandidate) -> bool {
    let loc = info.locations@[c.location as int];
    &&& c.location < info.locations@.len()
    &&& loc.blob_id@ == key_blob(info, key).id@
    &&& store_index(config, loc.storage@) == Some(c.store as int)
    &&& config.stores@[c.store as int].1.can_read
    &&& c.range == key_range(info, key)
}

/// Whether following `op` from state `x` cannot be computed: an operation
/// that makes the state's blob a slice, where the state's start is not
/// before the slice, and adding up the ends overflows 64 bits, or the slice
/// covers the requested contents but its source blob is unknown or the
/// contents' start in it does not fit in 64 bits.
pub open spec fn op_breaks(info: GetBlobRefResponse, x: (int, int), op: BlobOperation) -> bool {
    let blob = key_blob(info, x);
    let req = info.blob.size;
    let s = x.1;
    &&& op.dst_blob_id@ == blob.id@
    &&& match op.operation {
        Some(Operation::Slice(sl)) => {
            let dst_start = opt_or(sl.dst_start, 0);
            let size = opt_or(sl.size, blob.size);
            s >= dst_start && (s + req > u64::MAX || dst_start + size > u64::MAX || (s + req
                <= dst_start + size && (blob_index(info, op.src_blob_id@) is None || opt_or(
                sl.src_start,
                0,
            ) + (s - dst_start) > u64::MAX)))
        },
        None => false,
    }
}

/// Whether looking at state `x` cannot be computed: a readable copy of
/// another blob than the requested one, where the requested contents' last
/// byte in it does not fit in 64 bits, or an operation that breaks.
pub open spec fn state_breaks(info: GetBlobRefResponse, config: Config, x: (int, int)) -> bool {
    ||| (key_blob(info, x).id@ != info.blob.id@ && x.1 + info.blob.size - 1 > u64::MAX && exists|l: int|
        0 <= l < info.locations@.len() && #[trigger] location_candidate(info, config, x, l) is Some)
    ||| exists|i: int| 0 <= i < info.operations@.len() && op_breaks(info, x, #[trigger] info.operations@[i])
}

/// The priority of a candidate's store.
pub open spec fn priority(config: Config, c: ReadCandidate) -> i32 {
    config.stores@[c.store as int].1.priority
}

/// The first position in `v` of a candidate of least priority.
fn index_of_min_priority(v: &Vec<ReadCandidate>, config: &Config) -> (m: usize)
    requires
        v@.len() > 0,
        forall|i: int| 0 <= i < v@.len() ==> (#[trigger] v@[i]).store < config.stores@.len(),
    ensures
        m < v@.len(),
        forall|i: int| 0 <= i < v@.len() ==> priority(*config, v@[m as int]) <= priority(
            *config,
            #[trigger] v@[i],
        ),
        forall|i: int| 0 <= i < m ==> priority(*config, v@[m as int]) < priority(
            *config,
            #[trigger] v@[i],
        ),
{
    let mut m: usize = 0;
    let mut i: usize = 1;
    while i < v.len()
        invariant
            0 < i <= v@.len(),
            m < i,
            forall|i: int| 0 <= i < v@.len() ==> (#[trigger] v@[i]).store < config.stores@.len(),
            forall|k: int| 0 <= k < i ==> priority(*config, v@[m as int]) <= priority(
                *config,
                #[trigger] v@[k],
            ),
            forall|k: int| 0 <= k < m ==> priority(*config, v@[m as int]) < priority(
                *config,
                #[trigger] v@[k],
            ),
        decreases v@.len() - i,
    {
        if config.stores[v[i].store].1.priority < config.stores[v[m].store].1.priority {
            m = i;
        }
        i = i + 1;
    }
    m
}

/// The candidates of `s` whose store has priority `p`, in their order.
pub open spec fn with_priority(config: Config, s: Seq<ReadCandidate>, p: i32) -> Seq<ReadCandidate> {
    s.filter(|c: ReadCandidate| priority(config, c) == p)
}

proof fn lemma_filter_single(c: ReadCandidate, pred: spec_fn(ReadCandidate) -> bool)
    ensures
        seq![c].filter(pred) == if pred(c) {
            seq![c]
        } else {
            Seq::<ReadCandidate>::empty()
        },
{
    reveal(Seq::filter);
    assert(seq![c].drop_last() =~= Seq::<ReadCandidate>::empty());
    assert(Seq::<ReadCandidate>::empty().filter(pred) =~= Seq::<ReadCandidate>::empty());
}

proof fn lemma_filter_none(s: Seq<ReadCandidate>, pred: spec_fn(ReadCandidate) -> bool)
    requires
        forall|i: int| 0 <= i < s.len() ==> !pred(#[trigger] s[i]),
    ensures
        s.filter(pred) == Seq::<ReadCandidate>::empty(),
    decreases s.len(),
{
    reveal(Seq::filter);
    if s.len() > 0 {
        assert forall|i: int| 0 <= i < s.drop_last().len() implies !pred(#[trigger] s.drop_last()[i]) by {
            assert(s.drop_last()[i] == s[i]);
        }
        lemma_filter_none(s.drop_last(), pred);
        assert(!pred(s[s.len() - 1]));
    }
}

/// Moving `before[m]` to the end of `out` keeps the filtered order when no
/// earlier element of `before` passes the filter along with it.
proof fn lemma_move_filtered(out: Seq<ReadCandidate>, before: Seq<ReadCandidate>, m: int, pred: spec_fn(ReadCandidate) -> bool)
    requires
        0 <= m < before.len(),
        pred(before[m]) ==> forall|i: int| 0 <= i < m ==> !pred(#[trigger] before[i]),
    ensures
        out.push(before[m]).filter(pred) + before.remove(m).filter(pred) == out.filter(pred)
            + before.filter(pred),
{
    let c = before[m];
    let a = before.take(m);
    let b = before.skip(m + 1);
    assert(before =~= a + (seq![c] + b));
    assert(before.remove(m) =~= a + b);
    assert(out.push(c) =~= out + seq![c]);
    Seq::filter_distributes_over_add(a, seq![c] + b, pred);
    Seq::filter_distributes_over_add(seq![c], b, pred);
    Seq::filter_distributes_over_add(a, b, pred);
    Seq::filter_distributes_over_add(out, seq![c], pred);
    lemma_filter_single(c, pred);
    if pred(c) {
        assert forall|i: int| 0 <= i < a.len() implies !pred(#[trigger] a[i]) by {
            assert(a[i] == before[i]);
        }
        lemma_filter_none(a, pred);
        assert(out.filter(pred) + seq![c] + (a.filter(pred) + b.filter(pred)) =~= out.filter(pred) + (
        a.filter(pred) + (seq![c] + b.filter(pred))));
    } else {
        assert(out.filter(pred) + Seq::<ReadCandidate>::empty() =~= out.filter(pred));
        assert(Seq::<ReadCandidate>::empty() + b.filter(pred) =~= b.filter(pred));
    }
}

/// Taking the first least candidate out of `before` moves it to the end
/// of `out` without changing, for any priority, the order of its candidates.
proof fn lemma_move_first_min(config: Config, out: Seq<ReadCandidate>, before: Seq<ReadCandidate>, m: int, p: i32)
    requires
        0 <= m < before.len(),
        forall|i: int| 0 <= i < m ==> priority(config, before[m]) < priority(config, #[trigger] before[i]),
    ensures
        with_priority(config, out.push(before[m]), p) + with_priority(config, before.remove(m), p)
            == with_priority(config, out, p) + with_priority(config, before, p),
{
    let pred = |c: ReadCandidate| priority(config, c) == p;
    assert(pred(before[m]) ==> forall|i: int| 0 <= i < m ==> !pred(#[trigger] before[i]));
    lemma_move_filtered(out, before, m, pred);
}

/// The candidates name their stores in increasing order.
pub open spec fn stores_increasing(v: Seq<ReadCandidate>) -> bool {
    forall|i: int, j: int| 0 <= i < j < v.len() ==> (#[trigger] v[i]).store < (#[trigger] v[j]).store
}

/// Orders candidates by their store's priority, keeping the order of
/// candidates of equal priority.
fn sort_by_priority(v: Vec<ReadCandidate>, config: &Config) -> (r: Vec<ReadCandidate>)
    requires
        forall|i: int| 0 <= i < v@.len() ==> (#[trigger] v@[i]).store < config.stores@.len(),
    ensures
        r@.to_multiset() == v@.to_multiset(),
        forall|i: int| 0 <= i < r@.len() ==> (#[trigger] r@[i]).store < config.stores@.len(),
        forall|i: int, j: int|
            0 <= i < j < r@.len() ==> priority(*config, r@[i]) <= priority(*config, r@[j]),
        stores_increasing(v@) ==> forall|i: int, j: int|
            0 <= i < j < r@.len() && priority(*config, r@[i]) == priority(*config, r@[j]) ==> r@[i].store
                < r@[j].store,
        forall|p: i32| #[trigger] with_priority(*config, r@, p) == with_priority(*config, v@, p),
{
    let ghost inc = stores_increasing(v@);
    let mut rest = v;
    let mut out: Vec<ReadCandidate> = Vec::new();
    while rest.len() > 0
        invariant
            out@.to_multiset().add(rest@.to_multiset()) == v@.to_multiset(),
            forall|i: int| 0 <= i < rest@.len() ==> (#[trigger] rest@[i]).store
                < config.stores@.len(),
            forall|i: int| 0 <= i < out@.len() ==> (#[trigger] out@[i]).store
                < config.stores@.len(),
            forall|i: int, j: int|
                0 <= i < j < out@.len() ==> priority(*config, out@[i]) <= priority(
                    *config,
                    out@[j],
                ),
            forall|i: int, k: int|
                0 <= i < out@.len() && 0 <= k < rest@.len() ==> priority(*config, out@[i])
                    <= priority(*config, rest@[k]),
            inc == stores_increasing(v@),
            forall|p: i32|
                with_priority(*config, out@, p) + with_priority(*config, rest@, p) == #[trigger] with_priority(
                    *config,
                    v@,
                    p,
                ),
            inc ==> stores_increasing(rest@),
            inc ==> forall|i: int, j: int|
                0 <= i < j < out@.len() && priority(*config, out@[i]) == priority(*config, out@[j])
                    ==> out@[i].store < out@[j].store,
            inc ==> forall|i: int, k: int|
                0 <= i < out@.len() && 0 <= k < rest@.len() && priority(*config, out@[i]) == priority(
                    *config,
                    rest@[k],
                ) ==> out@[i].store < rest@[k].store,
        decreases rest@.len(),
    {
        let m = index_of_min_priority(&rest, config);
        let ghost before = rest@;
        let c = rest.remove(m);
        let ghost old_out = out@;
        out.push(c);
        proof {
            assert forall|p: i32|
                with_priority(*config, out@, p) + with_priority(*config, rest@, p) == #[trigger] with_priority(
                    *config,
                    v@,
                    p,
                ) by {
                lemma_move_first_min(*config, old_out, before, m as int, p);
                assert(with_priority(*config, old_out, p) + with_priority(*config, before, p) == with_priority(*config, v@, p));
            }
            assert(before.remove(m as int).to_multiset() == before.to_multiset().remove(before[m as int]));
            assert(old_out.push(c).to_multiset() == old_out.to_multiset().insert(c));
            assert(before.to_multiset().count(c) > 0);
            assert(out@.to_multiset().add(rest@.to_multiset()) =~= v@.to_multiset());
            assert forall|i: int, k: int|
                0 <= i < out@.len() && 0 <= k < rest@.len() implies priority(*config, out@[i])
                <= priority(*config, rest@[k]) by {
                let kk = if k < m { k } else { k + 1 };
                assert(rest@[k] == before[kk]);
                if i < old_out.len() {
                    assert(out@[i] == old_out[i]);
                }
            }
            assert forall|i: int, j: int| 0 <= i < j < out@.len() implies priority(
                *config,
                out@[i],
            ) <= priority(*config, out@[j]) by {
                if j < old_out.len() {
                    assert(out@[i] == old_out[i] && out@[j] == old_out[j]);
                } else {
                    assert(out@[i] == old_out[i]);
                    assert(out@[j] == before[m as int]);
                }
            }
            if inc {
                assert forall|a: int, b: int| 0 <= a < b < rest@.len() implies (#[trigger] rest@[a]).store
                    < (#[trigger] rest@[b]).store by {
                    let aa = if a < m { a } else { a + 1 };
                    let bb = if b < m { b } else { b + 1 };
                    assert(rest@[a] == before[aa] && rest@[b] == before[bb]);
                }
                assert forall|i: int, j: int|
                    0 <= i < j < out@.len() && priority(*config, out@[i]) == priority(*config, out@[j])
                        implies out@[i].store < out@[j].store by {
                    if j < old_out.len() {
                        assert(out@[i] == old_out[i] && out@[j] == old_out[j]);
                    } else {
                        assert(out@[i] == old_out[i]);
                        assert(out@[j] == before[m as int]);
                    }
                }
                assert forall|i: int, k: int|
                    0 <= i < out@.len() && 0 <= k < rest@.len() && priority(*config, out@[i])
                        == priority(*config, rest@[k]) implies out@[i].store < rest@[k].store by {
                    let kk = if k < m { k } else { k + 1 };
                    assert(rest@[k] == before[kk]);
                    if i < old_out.len() {
                        assert(out@[i] == old_out[i]);
                    } else {
                        assert(out@[i] == before[m as int]);
                        if kk < m {
                            assert(priority(*config, before[m as int]) < priority(*config, before[kk]));
                        }
                    }
                }
            }
        }
    }
    assert(rest@.to_multiset() =~= Multiset::empty());
    assert(out@.to_multiset().add(Multiset::empty()) =~= out@.to_multiset());
    assert forall|p: i32| #[trigger] with_priority(*config, out@, p) == with_priority(*config, v@, p) by {
        assert(rest@ =~= Seq::<ReadCandidate>::empty());
        lemma_filter_none(rest@, |c: ReadCandidate| priority(*config, c) == p);
        assert(with_priority(*config, out@, p) + with_priority(*config, rest@, p) == with_priority(*config, v@, p));
        assert(with_priority(*config, out@, p) + Seq::<ReadCandidate>::empty() =~= with_priority(*config, out@, p));
    }
    out
}

/// Byte-wise equality.
pub fn bytes_eq(a: &[u8], b: &[u8]) -> (r: bool)
    ensures
        r == (a@ == b@),
{
    if a.len() != b.len() {
        return false;
    }
    let mut i: usize = 0;
    while i < a.len()
        invariant
            a@.len() == b@.len(),
            i <= a@.len(),
            forall|k: int| 0 <= k < i ==> a@[k] == b@[k],
        decreases a@.len() - i,
    {
        if a[i] != b[i] {
            return false;
        }
        i = i + 1;
    }
    assert(a@ =~= b@);
    true
}

proof fn lemma_last_index_with_id(blobs: Seq<BlobInfo>, id: Seq<u8>, n: int)
    requires
        0 <= n <= blobs.len(),
    ensures
        match last_index_with_id(blobs, id, n) {
            Some(k) => 0 <= k < n && blobs[k].id@ == id && forall|m: int|
                k < m < n ==> blobs[m].id@ != id,
            None => forall|m: int| 0 <= m < n ==> blobs[m].id@ != id,
        },
    decreases n,
{
    if n > 0 {
        lemma_last_index_with_id(blobs, id, n - 1);
    }
}

/// The blob at position `i` of `all_blobs`.
fn blob_at(info: &GetBlobRefResponse, i: usize) -> (b: &BlobInfo)
    requires
        i < all_blobs(*info).len(),
    ensures
        *b == all_blobs(*info)[i as int],
{
    if i == 0 {
        &info.blob
    } else {
        &info.related_blobs[i - 1]
    }
}

/// The blob that `id` stands for, as `blob_index` says.
fn find_blob_index(info: &GetBlobRefResponse, id: &[u8]) -> (r: Option<usize>)
    ensures
        match r {
            Some(k) => blob_index(*info, id@) == Some(k as int),
            None => blob_index(*info, id@) is None,
        },
{
    let ghost blobs = all_blobs(*info);
    let mut n = info.related_blobs.len();
    proof { lemma_last_index_with_id(blobs, id@, blobs.len() as int); }
    loop
        invariant
            blobs == all_blobs(*info),
            n <= info.related_blobs@.len(),
            last_index_with_id(blobs, id@, blobs.len() as int) == last_index_with_id(
                blobs,
                id@,
                n + 1,
            ),
        decreases n,
    {
        let b = blob_at(info, n);
        if bytes_eq(&b.id, id) {
            return Some(n);
        }
        if n == 0 {
            assert(last_index_with_id(blobs, id@, 0) is None);
            return None;
        }
        n = n - 1;
    }
}

/// The first configured store named `name`, as `store_index` says.
fn find_store(config: &Config, name: &String) -> (r: Option<usize>)
    ensures
        match r {
            Some(k) => store_index(*config, name@) == Some(k as int) && k < config.stores@.len(),
            None => store_index(*config, name@) is None,
        },
{
    let mut i: usize = 0;
    while i < config.stores.len()
        invariant
            i <= config.stores@.len(),
            store_index(*config, name@) == store_index_from(config.stores@, name@, i as int),
        decreases config.stores@.len() - i,
    {
        if config.stores[i].0 == *name {
            return Some(i);
        }
        i = i + 1;
    }
    None
}

pub open spec fn key_of(k: (usize, u64)) -> (int, int) {
    (k.0 as int, k.1 as int)
}

/// Whether `visited` holds `key`.
fn holds_key(visited: &Vec<(usize, u64)>, key: (usize, u64)) -> (r: bool)
    ensures
        r == exists|q: int| 0 <= q < visited@.len() && key_of(visited@[q]) == key_of(key),
{
    let mut i: usize = 0;
    while i < visited.len()
        invariant
            i <= visited@.len(),
            forall|q: int| 0 <= q < i ==> key_of(visited@[q]) != key_of(key),
        decreases visited@.len() - i,
    {
        if visited[i].0 == key.0 && visited[i].1 == key.1 {
            assert(key_of(visited@[i as int]) == key_of(key));
            return true;
        }
        i = i + 1;
    }
    false
}

/// A set of search states within `n` blobs holds at most `n * 2^64` of them.
proof fn lemma_states_bounded(s: Set<(int, int)>, n: int)
    requires
        s.finite(),
        n >= 0,
        forall|k: (int, int)| s.contains(k) ==> 0 <= k.0 < n && 0 <= k.1 <= u64::MAX,
    ensures
        s.len() <= n * (u64::MAX + 1),
{
    let m: int = u64::MAX + 1;
    let f = |k: (int, int)| k.0 * m + k.1;
    assert forall|a: (int, int), b: (int, int)|
        s.contains(a) && s.contains(b) && #[trigger] f(a) == #[trigger] f(b) implies a == b by {
        assert(a.0 == b.0 && a.1 == b.1) by (nonlinear_arith)
            requires
                a.0 * m + a.1 == b.0 * m + b.1,
                0 <= a.1 < m,
                0 <= b.1 < m,
                m > 0,
        ;
    }
    lemma_map_size(s, s.map(f), f);
    lemma_int_range(0, n * m);
    assert forall|v: int| s.map(f).contains(v) implies set_int_range(0, n * m).contains(v) by {
        let k = choose|k: (int, int)| s.contains(k) && f(k) == v;
        assert(0 <= k.0 * m + k.1 < n * m) by (nonlinear_arith)
            requires
                0 <= k.0 < n,
                0 <= k.1 < m,
                m > 0,
        ;
    }
    lemma_len_subset(s.map(f), set_int_range(0, n * m));
}

/// Every state reached lies in a set that holds the start and is closed
/// under the steps.
proof fn lemma_reach_within(info: GetBlobRefResponse, s: Set<(int, int)>, d: nat)
    requires
        s.contains(initial_key(info)),
        forall|x: (int, int), i: int|
            #![trigger s.contains(x), info.operations@[i]]
            s.contains(x) && 0 <= i < info.operations@.len() && slice_step(
                info,
                x,
                info.operations@[i],
            ) is Some ==> s.contains(slice_step(info, x, info.operations@[i])->0),
    ensures
        reach(info, d).subset_of(s),
    decreases d,
{
    if d > 0 {
        lemma_reach_within(info, s, (d - 1) as nat);
        let prev = reach(info, (d - 1) as nat);
        assert forall|y: (int, int)| reach(info, d).contains(y) implies s.contains(y) by {
            if !prev.contains(y) {
                let (x, i) = choose|x: (int, int), i: int|
                    #![trigger prev.contains(x), info.operations@[i]]
                    prev.contains(x) && 0 <= i < info.operations@.len() && slice_step(
                        info,
                        x,
                        info.operations@[i],
                    ) == Some(y);
                assert(s.contains(x));
            }
        }
    }
}

/// A step from a reached state reaches a state.
proof fn lemma_step_reachable(info: GetBlobRefResponse, x: (int, int), i: int)
    requires
        reachable(info, x),
        0 <= i < info.operations@.len(),
        slice_step(info, x, info.operations@[i]) is Some,
    ensures
        reachable(info, slice_step(info, x, info.operations@[i])->0),
{
    let d = choose|d: nat| #[trigger] reach(info, d).contains(x);
    let y = slice_step(info, x, info.operations@[i])->0;
    let prev = reach(info, d);
    assert(prev.contains(x) && info.operations@[i] == info.operations@[i]);
    assert(reach(info, d + 1).contains(y));
}

/// Adding a state to a set adds one to the states of it that satisfy `p`,
/// when the state satisfies `p`.
proof fn lemma_filter_insert(s: Set<(int, int)>, x: (int, int), p: spec_fn((int, int)) -> bool)
    requires
        s.finite(),
        !s.contains(x),
    ensures
        s.insert(x).filter(p).finite(),
        s.insert(x).filter(p).len() == s.filter(p).len() + if p(x) {
            1int
        } else {
            0int
        },
{
    s.lemma_len_filter(p);
    if p(x) {
        assert(s.insert(x).filter(p) =~= s.filter(p).insert(x));
    } else {
        assert(s.insert(x).filter(p) =~= s.filter(p));
    }
}

/// A point of the search for candidates: the states still to look at (the
/// last one is looked at next), the states already looked at, and the
/// candidates found so far, in the order found.
pub struct SearchState {
    pub pending: Seq<(int, int)>,
    pub visited: Set<(int, int)>,
    pub found: Seq<ReadCandidate>,
}

/// The candidate that location `l` gives in state `x`, if any: when the
/// location holds the state's blob in a configured, readable store.
pub open spec fn location_candidate(info: GetBlobRefResponse, config: Config, x: (int, int), l: int) -> Option<ReadCandidate> {
    let loc = info.locations@[l];
    if loc.blob_id@ == key_blob(info, x).id@ {
        match store_index(config, loc.storage@) {
            Some(st) => if config.stores@[st].1.can_read {
                Some(ReadCandidate { location: l as usize, store: st as usize, range: key_range(info, x) })
            } else {
                None
            },
            None => None,
        }
    } else {
        None
    }
}

/// The candidates of state `x` from the first `l` locations, in order.
pub open spec fn location_candidates(info: GetBlobRefResponse, config: Config, x: (int, int), l: nat) -> Seq<ReadCandidate>
    decreases l,
{
    if l == 0 {
        Seq::empty()
    } else {
        let prev = location_candidates(info, config, x, (l - 1) as nat);
        match location_candidate(info, config, x, l - 1) {
            Some(c) => prev.push(c),
            None => prev,
        }
    }
}

/// The states that the first `i` operations lead to from `x`, in order.
pub open spec fn successors(info: GetBlobRefResponse, x: (int, int), i: nat) -> Seq<(int, int)>
    decreases i,
{
    if i == 0 {
        Seq::empty()
    } else {
        let prev = successors(info, x, (i - 1) as nat);
        match slice_step(info, x, info.operations@[i - 1]) {
            Some(y) => prev.push(y),
            None => prev,
        }
    }
}

/// One step of the depth-first search: take the last pending state; unless
/// it was looked at already, add the candidates of its locations (in the
/// locations' order) and push the states its operations lead to (in the
/// operations' order).
pub open spec fn search_step(info: GetBlobRefResponse, config: Config, st: SearchState) -> SearchState {
    if st.pending.len() == 0 {
        st
    } else {
        let x = st.pending.last();
        let rest = st.pending.drop_last();
        if st.visited.contains(x) {
            SearchState { pending: rest, visited: st.visited, found: st.found }
        } else {
            SearchState {
                pending: rest + successors(info, x, info.operations@.len()),
                visited: st.visited.insert(x),
                found: st.found + location_candidates(info, config, x, info.locations@.len()),
            }
        }
    }
}

/// The search after `k` steps, starting from the requested blob.
pub open spec fn search_after(info: GetBlobRefResponse, config: Config, k: nat) -> SearchState
    decreases k,
{
    if k == 0 {
        SearchState { pending: seq![initial_key(info)], visited: Set::empty(), found: Seq::empty() }
    } else {
        search_step(info, config, search_after(info, config, (k - 1) as nat))
    }
}

/// Once nothing is pending, the search stays where it is: every step count
/// at which it is done gives the same candidates.
pub proof fn lemma_search_settles(info: GetBlobRefResponse, config: Config, k: nat, k2: nat)
    requires
        search_after(info, config, k).pending.len() == 0,
        k <= k2,
    ensures
        search_after(info, config, k2) == search_after(info, config, k),
    decreases k2,
{
    if k2 > k {
        lemma_search_settles(info, config, k, (k2 - 1) as nat);
    }
}

/// The keys of pending states.
pub open spec fn keys(p: Seq<(usize, u64)>) -> Seq<(int, int)> {
    p.map_values(|q: (usize, u64)| key_of(q))
}

/// The states that yield `c`, among `s`.
pub open spec fn yielding(info: GetBlobRefResponse, config: Config, s: Set<(int, int)>, c: ReadCandidate) -> Set<(int, int)> {
    s.filter(|k: (int, int)| produces(info, config, k, c))
}

/// The range that a state asks for, computed.
fn range_for(info: &GetBlobRefResponse, blob: &BlobInfo, s: u64) -> (r: Option<ContentRange>)
    requires
        blob.id@ != info.blob.id@ ==> s + info.blob.size - 1 <= u64::MAX,
        info.blob.size > 0,
    ensures
        r == (if blob.id@ == info.blob.id@ {
            None
        } else {
            Some(
                ContentRange {
                    start: s,
                    end: (s + info.blob.size - 1) as u64,
                    entire_size: blob.size,
                },
            )
        }),
{
    if bytes_eq(&blob.id, &info.blob.id) {
        None
    } else {
        Some(ContentRange { start: s, end: s + (info.blob.size - 1), entire_size: blob.size })
    }
}

/// What the places to read the requested blob from are: each in a
/// configured store; best store first; each candidate listed as often as
/// reached states yield it; and, among stores of equal priority, in the
/// order in which the depth-first search finds them.
pub open spec fn are_read_candidates(info: GetBlobRefResponse, config: Config, r: Seq<ReadCandidate>) -> bool {
    &&& forall|i: int| 0 <= i < r.len() ==> (#[trigger] r[i]).store < config.stores@.len()
    &&& forall|i: int, j: int| 0 <= i < j < r.len() ==> priority(config, r[i]) <= priority(config, r[j])
    &&& forall|c: ReadCandidate|
        #[trigger] r.to_multiset().count(c) == Set::new(
            |k: (int, int)| reachable(info, k) && produces(info, config, k, c),
        ).len()
    &&& exists|k: nat|
        #![trigger search_after(info, config, k)]
        search_after(info, config, k).pending.len() == 0 && forall|p: i32|
            #[trigger] with_priority(config, r, p) == with_priority(config, search_after(info, config, k).found, p)
}

/// The places to read the requested blob from, as `find_read_candidates`
/// says; `None` exactly when the search reaches a state that cannot be
/// computed (an unknown source blob, or a position beyond 64 bits).
pub fn try_find_read_candidates(info: &GetBlobRefResponse, config: &Config) -> (r: Option<Vec<ReadCandidate>>)
    requires
        info.blob.size > 0,
    ensures
        r is None <==> exists|x: (int, int)| #[trigger] reachable(*info, x) && state_breaks(*info, *config, x),
        r matches Some(v) ==> are_read_candidates(*info, *config, v@),
{
    let req = info.blob.size;
    let ghost n = all_blobs(*info).len() as int;
    let ghost ops = info.operations@;
    let init_j = match find_blob_index(info, &info.blob.id) {
        Some(j) => j,
        None => {
            proof {
                lemma_last_index_with_id(all_blobs(*info), info.blob.id@, n);
                assert(all_blobs(*info)[0] == info.blob);
            }
            return None;
        },
    };

    proof {
        lemma_last_index_with_id(all_blobs(*info), info.blob.id@, n);
    }
    let ghost init = initial_key(*info);
    assert(init == (init_j as int, 0int));
    assert(reach(*info, 0).contains(init));
    let mut pending: Vec<(usize, u64)> = Vec::new();
    pending.push((init_j, 0));
    assert(key_of(pending@[0]) == init);
    let mut visited: Vec<(usize, u64)> = Vec::new();
    let mut candidates: Vec<ReadCandidate> = Vec::new();
    let ghost mut processed: Set<(int, int)> = Set::empty();
    let ghost mut steps: nat = 0;
    assert(keys(pending@) =~= seq![init]);
    assert(candidates@ =~= Seq::<ReadCandidate>::empty());
    proof {
        assert forall|c: ReadCandidate| candidates@.to_multiset().count(c) == yielding(
            *info,
            *config,
            processed,
            c,
        ).len() by {
            assert(yielding(*info, *config, processed, c) =~= Set::empty());
        }
        lemma_states_bounded(processed, n);
    }
    while pending.len() > 0
        invariant
            n == all_blobs(*info).len(),
            ops == info.operations@,
            req == info.blob.size,
            req > 0,
            init == initial_key(*info),
            init == (init_j as int, 0int),
            forall|q: int|
                0 <= q < pending@.len() ==> {
                    let k = key_of(#[trigger] pending@[q]);
                    &&& 0 <= k.0 < n
                    &&& k.1 <= u64::MAX
                    &&& reachable(*info, k)
                },
            processed.finite(),
            forall|k: (int, int)|
                processed.contains(k) ==> 0 <= k.0 < n && 0 <= k.1 <= u64::MAX && reachable(
                    *info,
                    k,
                ),
            forall|k: (int, int)|
                processed.contains(k) <==> exists|q: int|
                    0 <= q < visited@.len() && key_of(#[trigger] visited@[q]) == k,
            processed.contains(init) || exists|q: int|
                0 <= q < pending@.len() && key_of(#[trigger] pending@[q]) == init,
            forall|x: (int, int), i: int|
                #![trigger processed.contains(x), ops[i]]
                processed.contains(x) && 0 <= i < ops.len() && slice_step(*info, x, ops[i]) is Some
                    ==> processed.contains(slice_step(*info, x, ops[i])->0) || exists|q: int|
                    0 <= q < pending@.len() && key_of(#[trigger] pending@[q]) == slice_step(
                        *info,
                        x,
                        ops[i],
                    )->0,
            forall|i: int| 0 <= i < candidates@.len() ==> (#[trigger] candidates@[i]).store
                < config.stores@.len(),
            forall|c: ReadCandidate|
                #[trigger] candidates@.to_multiset().count(c) == yielding(
                    *info,
                    *config,
                    processed,
                    c,
                ).len(),
            processed.len() <= n * (u64::MAX + 1),
            forall|k: (int, int)| processed.contains(k) ==> !state_breaks(*info, *config, k),
            search_after(*info, *config, steps).pending == keys(pending@),
            search_after(*info, *config, steps).visited == processed,
            search_after(*info, *config, steps).found == candidates@,
        decreases n * (u64::MAX + 1) - processed.len(), pending@.len(),
    {
        let ghost pending_before = pending@;
        let (j, s) = pending.pop().unwrap();
        let ghost x = key_of((j, s));
        assert(pending_before[pending_before.len() - 1] == (j, s));
        assert forall|q: int| 0 <= q < pending@.len() implies pending@[q] == pending_before[q] by {}
        assert(keys(pending@) =~= keys(pending_before).drop_last());
        assert(keys(pending_before).last() == x);
        if holds_key(&visited, (j, s)) {
            assert(processed.contains(x));
            proof {
                steps = steps + 1;
            }
            continue;
        }
        assert(!processed.contains(x));
        let ghost visited_before = visited@;
        visited.push((j, s));
        let ghost old_processed = processed;
        proof {
            processed = processed.insert(x);
        }
        let is_init = j == init_j && s == 0;
        let blob: &BlobInfo = if is_init {
            &info.blob
        } else {
            blob_at(info, j)
        };
        assert(*blob == key_blob(*info, x));
        let ghost cands_before = candidates@;
        let mut l: usize = 0;
        while l < info.locations.len()
            invariant
                l <= info.locations@.len(),
                *blob == key_blob(*info, x),
                x == key_of((j, s)),
                reachable(*info, x),
                info.blob.size > 0,
                req == info.blob.size,
                (key_blob(*info, x).id@ != info.blob.id@ && x.1 + info.blob.size - 1 > u64::MAX) ==> forall|l2: int|
                    0 <= l2 < l ==> #[trigger] location_candidate(*info, *config, x, l2) is None,
                forall|i: int| 0 <= i < candidates@.len() ==> (#[trigger] candidates@[i]).store
                    < config.stores@.len(),
                forall|c: ReadCandidate|
                    #[trigger] candidates@.to_multiset().count(c) == cands_before.to_multiset().count(
                        c,
                    ) + if produces(*info, *config, x, c) && c.location < l {
                        1int
                    } else {
                        0int
                    },
                candidates@ == cands_before + location_candidates(*info, *config, x, l as nat),
            decreases info.locations@.len() - l,
        {
            let ghost cands_iter = candidates@;
            let loc = &info.locations[l];
            if bytes_eq(&loc.blob_id, &blob.id) {
                match find_store(config, &loc.storage) {
                    Some(st) => {
                        if config.stores[st].1.can_read {
                            assert(location_candidate(*info, *config, x, l as int) is Some);
                            if !bytes_eq(&blob.id, &info.blob.id) && (s as u128) + (req as u128) - 1 > (
                            u64::MAX as u128) {
                                assert(state_breaks(*info, *config, x));
                                return None;
                            }
                            let range = range_for(info, blob, s);
                            assert(range == key_range(*info, x));
                            let c = ReadCandidate { location: l, store: st, range };
                            let ghost before = candidates@;
                            candidates.push(c);
                            assert(produces(*info, *config, x, c));
                            assert forall|c2: ReadCandidate| #[trigger] candidates@.to_multiset().count(
                                c2,
                            ) == cands_before.to_multiset().count(c2) + if produces(
                                *info,
                                *config,
                                x,
                                c2,
                            ) && c2.location < l + 1 {
                                1int
                            } else {
                                0int
                            } by {
                                assert(candidates@.to_multiset() == before.to_multiset().insert(c));
                                if produces(*info, *config, x, c2) && c2.location == l {
                                    assert(c2 == c);
                                }
                            }
                            assert(location_candidate(*info, *config, x, l as int) == Some(c));
                            assert(candidates@ =~= cands_before + location_candidates(*info, *config, x, (l + 1) as nat));
                        } else {
                            assert(location_candidate(*info, *config, x, l as int) is None);
                        }
                    },
                    None => {
                        assert(location_candidate(*info, *config, x, l as int) is None);
                    },
                }
            } else {
                assert(location_candidate(*info, *config, x, l as int) is None);
            }
            assert(candidates@ =~= cands_before + location_candidates(*info, *config, x, (l + 1) as nat));
            l = l + 1;
        }
        proof {
            assert forall|c: ReadCandidate| #[trigger] candidates@.to_multiset().count(c) == yielding(
                *info,
                *config,
                processed,
                c,
            ).len() by {
                lemma_filter_insert(old_processed, x, |k: (int, int)| produces(*info, *config, k, c));
            }
        }
        let ghost pending_mid = pending@;
        let mut i: usize = 0;
        while i < info.operations.len()
            invariant
                i <= ops.len(),
                ops == info.operations@,
                n == all_blobs(*info).len(),
                req == info.blob.size,
                req > 0,
                *blob == key_blob(*info, x),
                x == key_of((j, s)),
                reachable(*info, x),
                pending@.len() >= pending_mid.len(),
                forall|q: int| 0 <= q < pending_mid.len() ==> pending@[q] == pending_mid[q],
                forall|q: int|
                    0 <= q < pending@.len() ==> {
                        let k = key_of(#[trigger] pending@[q]);
                        &&& 0 <= k.0 < n
                        &&& k.1 <= u64::MAX
                        &&& reachable(*info, k)
                    },
                forall|i2: int|
                    0 <= i2 < i && slice_step(*info, x, ops[i2]) is Some ==> exists|q: int|
                        0 <= q < pending@.len() && key_of(#[trigger] pending@[q]) == slice_step(
                            *info,
                            x,
                            #[trigger] ops[i2],
                        )->0,
                keys(pending@) == keys(pending_mid) + successors(*info, x, i as nat),
                forall|i2: int| 0 <= i2 < i ==> !op_breaks(*info, x, #[trigger] ops[i2]),
            decreases ops.len() - i,
        {
            let ghost pend_iter = pending@;
            let op = &info.operations[i];
            let ghost step = slice_step(*info, x, ops[i as int]);
            if bytes_eq(&op.dst_blob_id, &blob.id) {
                match &op.operation {
                    Some(Operation::Slice(sl)) => {
                        let dst_start = sl.dst_start();
                        let size = match sl.size {
                            Some(v) => v,
                            None => blob.size,
                        };
                        if (s as u128) >= (dst_start as u128) && ((s as u128) + (req as u128) > (
                        u64::MAX as u128) || (dst_start as u128) + (size as u128) > (u64::MAX as u128)) {
                            assert(op_breaks(*info, x, ops[i as int]));
                            assert(state_breaks(*info, *config, x));
                            return None;
                        }
                        if !((s as u128) < (dst_start as u128) || (s as u128) + (req as u128) > (
                        dst_start as u128) + (size as u128)) {
                            match find_blob_index(info, &op.src_blob_id) {
                                Some(jj) => {
                                    proof { lemma_last_index_with_id(all_blobs(*info), op.src_blob_id@, n); }
                                    let ns = (sl.src_start() as u128) + ((s - dst_start) as u128);
                                    if ns > (u64::MAX as u128) {
                                        assert(op_breaks(*info, x, ops[i as int]));
                                        assert(state_breaks(*info, *config, x));
                                        return None;
                                    }
                                    if ns <= (u64::MAX as u128) {
                                        let y = (jj, ns as u64);
                                        assert(step == Some(key_of(y)));
                                        proof { lemma_step_reachable(*info, x, i as int); }
                                        pending.push(y);
                                        assert(key_of(pending@[pending@.len() - 1]) == key_of(y));
                                    } else {
                                        assert(step is None);
                                    }
                                },
                                None => {
                                    assert(op_breaks(*info, x, ops[i as int]));
                                    assert(state_breaks(*info, *config, x));
                                    return None;
                                },
                            }
                        } else {
                            assert(step is None);
                        }
                    },
                    None => {
                        assert(step is None);
                    },
                }
            } else {
                assert(step is None);
            }
            proof {
                assert forall|i2: int|
                    0 <= i2 < i + 1 && slice_step(*info, x, ops[i2]) is Some implies exists|q: int|
                    0 <= q < pending@.len() && key_of(#[trigger] pending@[q]) == slice_step(
                        *info,
                        x,
                        #[trigger] ops[i2],
                    )->0 by {
                    if i2 < i {
                        let q = choose|q: int|
                            0 <= q < pend_iter.len() && key_of(#[trigger] pend_iter[q]) == slice_step(
                                *info,
                                x,
                                ops[i2],
                            )->0;
                        assert(pending@[q] == pend_iter[q]);
                    } else {
                        assert(key_of(pending@[pending@.len() - 1]) == step->0);
                    }
                }
                if step is Some {
                    assert(pending@ == pend_iter.push(pending@[pending@.len() - 1]));
                    assert(keys(pending@) =~= keys(pend_iter).push(step->0));
                } else {
                    assert(pending@ == pend_iter);
                }
                assert(keys(pending@) =~= keys(pending_mid) + successors(*info, x, (i + 1) as nat));
            }
            i = i + 1;
        }
        proof {
            assert forall|k: (int, int)|
                processed.contains(k) <==> exists|q: int|
                    0 <= q < visited@.len() && key_of(#[trigger] visited@[q]) == k by {
                if processed.contains(k) && k != x {
                    assert(old_processed.contains(k));
                    let q = choose|q: int|
                        0 <= q < visited_before.len() && key_of(#[trigger] visited_before[q]) == k;
                    assert(visited@[q] == visited_before[q]);
                }
                if k == x {
                    assert(key_of(visited@[visited@.len() - 1]) == x);
                }
                if exists|q: int| 0 <= q < visited@.len() && key_of(#[trigger] visited@[q]) == k {
                    let q = choose|q: int| 0 <= q < visited@.len() && key_of(#[trigger] visited@[q]) == k;
                    if q < visited_before.len() {
                        assert(visited@[q] == visited_before[q]);
                        assert(old_processed.contains(k));
                    } else {
                        assert(k == x);
                    }
                }
            }
            assert forall|x2: (int, int), i2: int|
                #![trigger processed.contains(x2), ops[i2]]
                processed.contains(x2) && 0 <= i2 < ops.len() && slice_step(*info, x2, ops[i2]) is Some
                    implies processed.contains(slice_step(*info, x2, ops[i2])->0) || exists|q: int|
                    0 <= q < pending@.len() && key_of(#[trigger] pending@[q]) == slice_step(
                    *info,
                    x2,
                    ops[i2],
                )->0 by {
                let y = slice_step(*info, x2, ops[i2])->0;
                if x2 != x {
                    assert(old_processed.contains(x2));
                    if !old_processed.contains(y) {
                        let q = choose|q: int|
                            0 <= q < pending_before.len() && key_of(#[trigger] pending_before[q]) == y;
                        if q == pending_before.len() - 1 {
                            assert(y == x);
                        } else {
                            assert(pending@[q] == pending_before[q]);
                        }
                    }
                }
            }
            steps = steps + 1;
            assert(ops.len() == info.operations@.len());
            if !processed.contains(init) {
                let q = choose|q: int| 0 <= q < pending_before.len() && key_of(#[trigger] pending_before[q]) == init;
                if q == pending_before.len() - 1 {
                    assert(x == init);
                } else {
                    assert(pending@[q] == pending_before[q]);
                }
            }
            lemma_states_bounded(processed, n);
        }
    }
    proof {
        lemma_reach_within(*info, processed, 0);
        assert forall|c: ReadCandidate| Set::new(
            |k: (int, int)| reachable(*info, k) && produces(*info, *config, k, c),
        ) == yielding(*info, *config, processed, c) by {
            assert forall|k: (int, int)|
                reachable(*info, k) && produces(*info, *config, k, c) implies processed.contains(k) by {
                let d = choose|d: nat| #[trigger] reach(*info, d).contains(k);
                lemma_reach_within(*info, processed, d);
            }
            assert(Set::new(
                |k: (int, int)| reachable(*info, k) && produces(*info, *config, k, c),
            ) =~= yielding(*info, *config, processed, c));
        }
    }
    proof {
        assert forall|x: (int, int)| #[trigger] reachable(*info, x) implies !state_breaks(*info, *config, x) by {
            let d = choose|d: nat| #[trigger] reach(*info, d).contains(x);
            lemma_reach_within(*info, processed, d);
            assert(processed.contains(x));
        }
    }
    Some(sort_by_priority(candidates, config))
}

/// The places to read the requested blob from, best store first: for each
/// state that the search reaches (the blob itself from its start, and each
/// blob of which the contents sought are a slice, from where they start in
/// it), each location of that state's blob in a configured readable store.
/// Each candidate is listed as many times as there are reached states that
/// yield it.
pub fn find_read_candidates(info: &GetBlobRefResponse, config: &Config) -> (r: Vec<ReadCandidate>)
    requires
        info.blob.size > 0,
        forall|x: (int, int)| #[trigger] reachable(*info, x) ==> !state_breaks(*info, *config, x),
    ensures
        are_read_candidates(*info, *config, r@),
{
    match try_find_read_candidates(info, config) {
        Some(v) => v,
        None => {
            proof {
                let x = choose|x: (int, int)| #[trigger] reachable(*info, x) && state_breaks(*info, *config, x);
            }
            Vec::new()
        },
    }
}

/// A successful HTTP status (2xx).
pub open spec fn is_success(status: u16) -> bool {
    200 <= status <= 299
}

/// Whether a store's answer to a read can be passed on: a success, and when
/// a range was asked for, `206 Partial Content` naming exactly that range.
pub fn storage_response_ok(status: u16, expected: Option<ContentRange>, content_range: Option<&str>) -> (ok: bool)
    ensures
        ok == (is_success(status) && match expected {
            Some(e) => status == 206 && (content_range matches Some(h)
                && spec_parse_content_range(h@) == Some(e)),
            None => true,
        }),
{
    if !(200 <= status && status <= 299) {
        return false;
    }
    match expected {
        Some(e) => status == 206 && matches_content_range(content_range, &e),
        None => true,
    }
}

/// The stores that may be written to, best priority first; stores of equal
/// priority keep their configured order.
pub fn writable_stores(config: &Config) -> (r: Vec<usize>)
    ensures
        forall|i: int| 0 <= i < r@.len() ==> (#[trigger] r@[i]) < config.stores@.len()
            && config.stores@[r@[i] as int].1.can_write,
        forall|k: int|
            0 <= k < config.stores@.len() && config.stores@[k].1.can_write ==> #[trigger] r@.to_multiset().count(k as usize) == 1,
        forall|i: int, j: int|
            0 <= i < j < r@.len() ==> config.stores@[r@[i] as int].1.priority
                <= config.stores@[r@[j] as int].1.priority,
        forall|i: int, j: int|
            0 <= i < j < r@.len() && config.stores@[r@[i] as int].1.priority
                == config.stores@[r@[j] as int].1.priority ==> r@[i] < r@[j],
{
    let mut cands: Vec<ReadCandidate> = Vec::new();
    let mut k: usize = 0;
    while k < config.stores.len()
        invariant
            k <= config.stores@.len(),
            forall|i: int| 0 <= i < cands@.len() ==> (#[trigger] cands@[i]).store < k
                && config.stores@[cands@[i].store as int].1.can_write && cands@[i].location == 0
                && cands@[i].range is None,
            forall|i: int, j: int| 0 <= i < j < cands@.len() ==> cands@[i].store < cands@[j].store,
            forall|m: int|
                0 <= m < k && config.stores@[m].1.can_write ==> exists|i: int|
                    0 <= i < cands@.len() && (#[trigger] cands@[i]).store == m,
        decreases config.stores@.len() - k,
    {
        let ghost before = cands@;
        if config.stores[k].1.can_write {
            cands.push(ReadCandidate { location: 0, store: k, range: None });
        }
        proof {
            assert forall|m: int|
                0 <= m < k + 1 && config.stores@[m].1.can_write implies exists|i: int|
                    0 <= i < cands@.len() && (#[trigger] cands@[i]).store == m by {
                if m < k {
                    let i = choose|i: int| 0 <= i < before.len() && (#[trigger] before[i]).store == m;
                    assert(cands@[i] == before[i]);
                } else {
                    assert(cands@[cands@.len() - 1].store == m);
                }
            }
        }
        k = k + 1;
    }
    assert(stores_increasing(cands@));
    let sorted = sort_by_priority(cands, config);
    let mut r: Vec<usize> = Vec::new();
    let mut i: usize = 0;
    while i < sorted.len()
        invariant
            i <= sorted@.len(),
            r@.len() == i,
            forall|q: int| 0 <= q < i ==> r@[q] == (#[trigger] sorted@[q]).store,
            forall|q: int| 0 <= q < sorted@.len() ==> (#[trigger] sorted@[q]).store
                < config.stores@.len(),
        decreases sorted@.len() - i,
    {
        r.push(sorted[i].store);
        i = i + 1;
    }
    proof {
        assert(r@ =~= sorted@.map_values(|c: ReadCandidate| c.store));
        assert forall|q: int| 0 <= q < sorted@.len() implies config.stores@[(#[trigger] sorted@[q]).store as int].1.can_write && sorted@[q].location == 0 && sorted@[q].range is None by {
            assert(sorted@.to_multiset().count(sorted@[q]) > 0);
            assert(cands@.to_multiset().count(sorted@[q]) > 0);
            assert(cands@.contains(sorted@[q]));
        }
        assert forall|m: int|
            0 <= m < config.stores@.len() && config.stores@[m].1.can_write implies #[trigger] r@.to_multiset().count(m as usize) == 1 by {
            let c = ReadCandidate { location: 0, store: m as usize, range: None };
            let i0 = choose|i: int| 0 <= i < cands@.len() && (#[trigger] cands@[i]).store == m;
            assert(cands@[i0] == c);
            lemma_count_unique(cands@, c, i0);
            assert(sorted@.to_multiset().count(c) == 1);
            lemma_count_map_store(sorted@, m as usize);
        }
    }
    r
}

/// A sequence of distinct stores holds `c` once when it holds it at `i`.
proof fn lemma_count_unique(s: Seq<ReadCandidate>, c: ReadCandidate, i: int)
    requires
        0 <= i < s.len(),
        s[i] == c,
        forall|a: int, b: int| 0 <= a < b < s.len() ==> s[a].store < s[b].store,
    ensures
        s.to_multiset().count(c) == 1,
    decreases s.len(),
{
    let last = s.len() - 1;
    assert(s =~= s.drop_last().push(s[last]));
    if i == last {
        assert(!s.drop_last().contains(c)) by {
            if s.drop_last().contains(c) {
                let k = choose|k: int| 0 <= k < s.drop_last().len() && s.drop_last()[k] == c;
                assert(s[k].store < s[last].store);
            }
        }
    } else {
        lemma_count_unique(s.drop_last(), c, i);
        assert(s[last] != c) by {
            assert(s[i].store < s[last].store);
        }
    }
}

/// When every element of `s` is a store-only candidate, the stores listed
/// hold `m` as often as `s` holds the candidate for `m`.
proof fn lemma_count_map_store(s: Seq<ReadCandidate>, m: usize)
    requires
        forall|q: int| 0 <= q < s.len() ==> (#[trigger] s[q]).location == 0 && s[q].range is None,
    ensures
        s.map_values(|c: ReadCandidate| c.store).to_multiset().count(m) == s.to_multiset().count(
            ReadCandidate { location: 0, store: m, range: None },
        ),
    decreases s.len(),
{
    let f = |c: ReadCandidate| c.store;
    if s.len() > 0 {
        let last = s.len() - 1;
        assert(s =~= s.drop_last().push(s[last]));
        assert(s.map_values(f) =~= s.drop_last().map_values(f).push(s[last].store));
        lemma_count_map_store(s.drop_last(), m);
    } else {
        assert(s.map_values(f) =~= Seq::<usize>::empty());
    }
}

} // verus!
