//! Buffers for the I/O ring and the rules of its batched reads.
use vstd::prelude::*;

verus! {

/// An I/O operation that failed, with what the system said.
#[derive(Debug, Clone, PartialEq, Eq)]
pub struct IoFailure {
    pub message: String,
}

/// Handle on the process's I/O ring. The runtime owns the ring itself; the
/// handle keeps the depth and setup flags it was asked for, which the
/// runtime does not yet apply.
#[derive(Debug, Clone, Copy, PartialEq, Eq, Structural)]
pub struct IoUringPool {
    pub entries: u32,
    pub flags: u32,
}

impl IoUringPool {
    /// A handle for a ring of `entries` submission entries set up with `flags`.
    pub fn new(entries: u32, flags: u32) -> (r: Result<IoUringPool, IoFailure>)
        ensures
            r matches Ok(p) && p.entries == entries && p.flags == flags,
    {
        Ok(IoUringPool { entries, flags })
    }
}

/// Why a buffer could not be released.
#[derive(Debug, Clone, Copy, PartialEq, Eq, Structural)]
pub enum PoolError {
    /// No buffer has this index.
    IndexOutOfRange(usize),
    /// The buffer is already free: a second release of one acquisition.
    NotCheckedOut(usize),
}

/// A pool as a value: its buffers by index, and the free indices as a
/// stack whose top is the last element.
pub struct PoolView {
    pub buffers: Seq<Seq<u8>>,
    pub free: Seq<usize>,
    pub buffer_size: nat,
}

/// Free indices name buffers and appear once; every buffer has the pool's size.
pub open spec fn pool_wf(v: PoolView) -> bool {
    &&& forall|i: int| 0 <= i < v.free.len() ==> (#[trigger] v.free[i] as int) < v.buffers.len()
    &&& forall|i: int, j: int|
        0 <= i < j < v.free.len() ==> #[trigger] v.free[i] != #[trigger] v.free[j]
    &&& forall|i: int| 0 <= i < v.buffers.len() ==> (#[trigger] v.buffers[i]).len() == v.buffer_size
}

/// `n` zero bytes.
pub open spec fn zero_bytes(n: nat) -> Seq<u8> {
    Seq::new(n, |j: int| 0u8)
}

/// `count` buffers of `size` zero bytes.
pub open spec fn zero_buffers(count: nat, size: nat) -> Seq<Seq<u8>> {
    Seq::new(count, |i: int| zero_bytes(size))
}

/// The indices below `count`, in increasing order.
pub open spec fn indices(count: nat) -> Seq<usize> {
    Seq::new(count, |i: int| i as usize)
}

/// A new pool of `count` zeroed buffers of `size` bytes, all free, the
/// highest index on top.
pub open spec fn fresh_pool(count: nat, size: nat) -> PoolView {
    PoolView {
        buffers: zero_buffers(count, size),
        free: indices(count),
        buffer_size: size,
    }
}

/// Acquiring takes the index on top of the free stack, if there is one.
pub open spec fn pool_acquire(v: PoolView) -> (Option<usize>, PoolView) {
    if v.free.len() == 0 {
        (None, v)
    } else {
        (Some(v.free.last()), PoolView { free: v.free.drop_last(), ..v })
    }
}

/// Releasing puts a checked-out index back on top of the free stack; an
/// index out of range, or one already free, is refused and changes nothing.
pub open spec fn pool_release(v: PoolView, idx: usize) -> (Result<(), PoolError>, PoolView) {
    if idx >= v.buffers.len() {
        (Err(PoolError::IndexOutOfRange(idx)), v)
    } else if v.free.contains(idx) {
        (Err(PoolError::NotCheckedOut(idx)), v)
    } else {
        (Ok(()), PoolView { free: v.free.push(idx), ..v })
    }
}

/// The pool after `k` acquisitions.
pub open spec fn acquire_times(v: PoolView, k: nat) -> PoolView
    decreases k,
{
    if k == 0 {
        v
    } else {
        pool_acquire(acquire_times(v, (k - 1) as nat)).1
    }
}

/// Fixed-size, page-aligned byte buffers, handed out by index. An acquired
/// buffer belongs to its taker until released; the most recently released
/// buffer is handed out first.
pub struct BufferPool {
    buffers: Vec<Vec<u8>>,
    available: Vec<usize>,
    checked_out: Vec<bool>,
    buffer_size: usize,
}

impl View for BufferPool {
    type V = PoolView;

    closed spec fn view(&self) -> PoolView {
        PoolView {
            buffers: contents(self.buffers@),
            free: self.available@,
            buffer_size: self.buffer_size as nat,
        }
    }
}

/// `size` zero bytes.
fn zeroed(size: usize) -> (r: Vec<u8>)
    ensures
        r@ == zero_bytes(size as nat),
{
    let mut b: Vec<u8> = Vec::with_capacity(size);
    let mut j: usize = 0;
    while j < size
        invariant
            j <= size,
            b@ == zero_bytes(j as nat),
        decreases size - j,
    {
        b.push(0);
        j = j + 1;
        proof {
            assert(b@ =~= zero_bytes(j as nat));
        }
    }
    b
}

/// Dropping the top of a stack keeps every other element.
proof fn lemma_contains_drop_last(f: Seq<usize>, x: usize)
    requires
        f.len() > 0,
        x != f.last(),
    ensures
        f.drop_last().contains(x) == f.contains(x),
{
    if f.contains(x) {
        let w = choose|w: int| 0 <= w < f.len() && f[w] == x;
        assert(f.drop_last()[w] == x);
    }
    if f.drop_last().contains(x) {
        let w = choose|w: int| 0 <= w < f.drop_last().len() && f.drop_last()[w] == x;
        assert(f[w] == x);
    }
}

/// Pushing `y` adds exactly `y`.
proof fn lemma_contains_push(f: Seq<usize>, y: usize, x: usize)
    ensures
        f.push(y).contains(x) == (f.contains(x) || x == y),
{
    if f.contains(x) {
        let w = choose|w: int| 0 <= w < f.len() && f[w] == x;
        assert(f.push(y)[w] == x);
    }
    if x == y {
        assert(f.push(y)[f.len() as int] == x);
    }
    if f.push(y).contains(x) && x != y {
        let w = choose|w: int| 0 <= w < f.push(y).len() && f.push(y)[w] == x;
        assert(f[w] == x);
    }
}

impl BufferPool {
    /// The pool is well formed, and each buffer's flag says whether it is
    /// checked out.
    pub closed spec fn wf(&self) -> bool {
        &&& pool_wf(self@)
        &&& self.checked_out@.len() == self.buffers@.len()
        &&& self.buffers@.len() <= usize::MAX
        &&& forall|i: int|
            0 <= i < self.buffers@.len() ==> #[trigger] self.checked_out@[i] == !self.available@.contains(
                i as usize,
            )
    }

    /// A pool of `count` zeroed buffers of `buffer_size` bytes, all free.
    pub fn new(count: usize, buffer_size: usize) -> (p: BufferPool)
        ensures
            p.wf(),
            p@ == fresh_pool(count as nat, buffer_size as nat),
    {
        let mut buffers: Vec<Vec<u8>> = Vec::new();
        let mut available: Vec<usize> = Vec::new();
        let mut checked_out: Vec<bool> = Vec::new();
        let mut i: usize = 0;
        while i < count
            invariant
                i <= count,
                contents(buffers@) == zero_buffers(i as nat, buffer_size as nat),
                available@ == indices(i as nat),
                checked_out@ == Seq::new(i as nat, |k: int| false),
            decreases count - i,
        {
            let b = zeroed(buffer_size);
            let ghost before = buffers@;
            buffers.push(b);
            available.push(i);
            checked_out.push(false);
            i = i + 1;
            proof {
                assert(contents(buffers@) =~= contents(before).push(b@));
                assert(zero_buffers(i as nat, buffer_size as nat) =~= zero_buffers(
                    (i - 1) as nat,
                    buffer_size as nat,
                ).push(zero_bytes(buffer_size as nat)));
                assert(available@ =~= indices(i as nat));
                assert(checked_out@ =~= Seq::new(i as nat, |k: int| false));
            }
        }
        let p = BufferPool { buffers, available, checked_out, buffer_size };
        proof {
            assert(p@ =~= fresh_pool(count as nat, buffer_size as nat));
            assert forall|k: int| 0 <= k < count implies #[trigger] p.checked_out@[k]
                == !p.available@.contains(k as usize) by {
                assert(p.available@[k] == k as usize);
            }
        }
        p
    }

    /// Takes the most recently freed buffer, or `None` when every buffer
    /// is checked out.
    pub fn acquire(&mut self) -> (r: Option<usize>)
        requires
            old(self).wf(),
        ensures
            final(self).wf(),
            (r, final(self)@) == pool_acquire(old(self)@),
    {
        match self.available.pop() {
            None => None,
            Some(idx) => {
                proof {
                    let f = old(self)@.free;
                    assert(self.available@ =~= f.drop_last());
                    assert forall|k: int| 0 <= k < self.available@.len() implies self.available@[k]
                        != idx by {
                        assert(f[k] != f[f.len() - 1]);
                    }
                }
                self.checked_out.set(idx, true);
                proof {
                    let f = old(self)@.free;
                    assert forall|k: int| 0 <= k < self.buffers@.len() implies #[trigger] self.checked_out@[k]
                        == !self.available@.contains(k as usize) by {
                        if k != idx as int {
                            assert(old(self).checked_out@[k] == !f.contains(k as usize));
                            lemma_contains_drop_last(f, k as usize);
                        }
                    }
                }
                Some(idx)
            },
        }
    }

    /// Puts a checked-out buffer back on top of the free stack. An index
    /// that names no buffer, or one that is already free, is refused and
    /// the pool is unchanged.
    pub fn release(&mut self, idx: usize) -> (r: Result<(), PoolError>)
        requires
            old(self).wf(),
        ensures
            final(self).wf(),
            (r, final(self)@) == pool_release(old(self)@, idx),
    {
        if idx >= self.buffers.len() {
            return Err(PoolError::IndexOutOfRange(idx));
        }
        if !self.checked_out[idx] {
            return Err(PoolError::NotCheckedOut(idx));
        }
        self.checked_out.set(idx, false);
        self.available.push(idx);
        proof {
            let f = old(self)@.free;
            assert forall|k: int| 0 <= k < self.buffers@.len() implies #[trigger] self.checked_out@[k]
                == !self.available@.contains(k as usize) by {
                lemma_contains_push(f, idx, k as usize);
                if k != idx as int {
                    assert(old(self).checked_out@[k] == !f.contains(k as usize));
                }
            }
            assert forall|a: int, b: int|
                0 <= a < b < self.available@.len() implies #[trigger] self.available@[a]
                != #[trigger] self.available@[b] by {
                if b == self.available@.len() - 1 {
                    assert(f.contains(f[a]));
                    assert(old(self).checked_out@[idx as int]);
                }
            }
            assert(self@ =~= pool_release(old(self)@, idx).1);
        }
        Ok(())
    }

    /// The bytes of buffer `idx`, or `None` where no buffer has that index.
    /// Ownership does not change.
    pub fn get(&self, idx: usize) -> (r: Option<&[u8]>)
        requires
            self.wf(),
        ensures
            match r {
                Some(b) => idx < self@.buffers.len() && b@ == self@.buffers[idx as int],
                None => idx >= self@.buffers.len(),
            },
    {
        if idx < self.buffers.len() {
            Some(self.buffers[idx].as_slice())
        } else {
            None
        }
    }

    /// Readies the buffers for zero-copy I/O. The runtime registers them
    /// with the ring itself, so nothing is left to do here.
    pub fn register_with_ring(&self) -> (r: Result<(), PoolError>)
        ensures
            r is Ok,
    {
        Ok(())
    }
}

/// A pool of `n` buffers allows exactly `n` acquisitions before it has
/// none left: each of the first `n` gives a buffer, the next gives `None`.
pub proof fn lemma_pool_capacity(n: nat, size: nat, k: nat)
    requires
        k <= n,
    ensures
        acquire_times(fresh_pool(n, size), k).free == indices((n - k) as nat),
        k < n ==> pool_acquire(acquire_times(fresh_pool(n, size), k)).0 == Some(
            (n - k - 1) as usize,
        ),
        k == n ==> pool_acquire(acquire_times(fresh_pool(n, size), k)).0 is None,
    decreases k,
{
    if k > 0 {
        lemma_pool_capacity(n, size, (k - 1) as nat);
        let prev = acquire_times(fresh_pool(n, size), (k - 1) as nat);
        assert(prev.free.drop_last() =~= indices((n - k) as nat));
    }
}

/// Acquisition never hands out a buffer that stays free: the index it
/// gives is no longer on the free stack.
pub proof fn lemma_acquired_is_taken(v: PoolView)
    requires
        pool_wf(v),
    ensures
        pool_acquire(v).0 matches Some(i) ==> !pool_acquire(v).1.free.contains(i),
        pool_wf(pool_acquire(v).1),
{
    if v.free.len() > 0 {
        let f = v.free;
        let rest = pool_acquire(v).1.free;
        assert forall|k: int| 0 <= k < rest.len() implies rest[k] != f.last() by {
            assert(f[k] != f[f.len() - 1]);
        }
    }
}

/// After a release, the next acquisition gives back the released buffer.
pub proof fn lemma_release_then_acquire(v: PoolView, idx: usize)
    requires
        pool_release(v, idx).0 is Ok,
    ensures
        pool_acquire(pool_release(v, idx).1).0 == Some(idx),
{
}

/// Releasing the same buffer twice with no acquisition between is refused
/// the second time.
pub proof fn lemma_double_release(v: PoolView, idx: usize)
    requires
        pool_release(v, idx).0 is Ok,
    ensures
        pool_release(pool_release(v, idx).1, idx).0 == Err::<(), PoolError>(
            PoolError::NotCheckedOut(idx),
        ),
{
    assert(pool_release(v, idx).1.free.last() == idx);
    assert(pool_release(v, idx).1.free.contains(idx));
}

/// One read of a batch: `length` bytes of the file at `path` from `offset`.
#[derive(Debug, Clone)]
pub struct ReadOp {
    pub path: String,
    pub offset: usize,
    pub length: usize,
}

/// The outcome of one read, as a value.
pub open spec fn outcome_view(r: Result<Vec<u8>, IoFailure>) -> Result<Seq<u8>, IoFailure> {
    match r {
        Ok(b) => Ok(b@),
        Err(e) => Err(e),
    }
}

/// The outcomes of a batch's reads, as values.
pub open spec fn outcomes(rs: Seq<Result<Vec<u8>, IoFailure>>) -> Seq<Result<Seq<u8>, IoFailure>> {
    rs.map_values(|o: Result<Vec<u8>, IoFailure>| outcome_view(o))
}

/// The contents of some byte buffers.
pub open spec fn contents(vs: Seq<Vec<u8>>) -> Seq<Seq<u8>> {
    vs.map_values(|v: Vec<u8>| v@)
}

/// What a batch gives for the outcomes of its reads, in input order: every
/// read's bytes when all succeeded, else the first failure.
pub open spec fn batch_outcome(rs: Seq<Result<Seq<u8>, IoFailure>>) -> Result<
    Seq<Seq<u8>>,
    IoFailure,
>
    decreases rs.len(),
{
    if rs.len() == 0 {
        Ok(Seq::empty())
    } else {
        match batch_outcome(rs.drop_last()) {
            Err(e) => Err(e),
            Ok(done) => match rs.last() {
                Ok(b) => Ok(done.push(b)),
                Err(e) => Err(e),
            },
        }
    }
}

/// Joins the outcomes of a batch's reads, given in input order: all the
/// bytes in that order, or the first failure and nothing else.
pub fn join_batch(results: Vec<Result<Vec<u8>, IoFailure>>) -> (r: Result<
    Vec<Vec<u8>>,
    IoFailure,
>)
    ensures
        match r {
            Ok(vs) => batch_outcome(outcomes(results@)) == Ok::<
                Seq<Seq<u8>>,
                IoFailure,
            >(contents(vs@)),
            Err(e) => batch_outcome(outcomes(results@)) == Err::<
                Seq<Seq<u8>>,
                IoFailure,
            >(e),
        },
{
    let ghost orig = results@;
    let ghost rs = outcomes(orig);
    let mut out: Vec<Vec<u8>> = Vec::new();
    let mut i: usize = 0;
    let n = results.len();
    let mut items = results;
    proof {
        assert(rs.subrange(0, 0) =~= Seq::<Result<Seq<u8>, IoFailure>>::empty());
        assert(contents(out@) =~= Seq::<Seq<u8>>::empty());
        assert(items@ =~= orig.subrange(0, n as int));
    }
    while i < n
        invariant
            n == orig.len(),
            orig == results@,
            i <= n,
            rs == outcomes(orig),
            items@ == orig.subrange(i as int, n as int),
            batch_outcome(rs.subrange(0, i as int)) == Ok::<Seq<Seq<u8>>, IoFailure>(
                contents(out@),
            ),
        decreases n - i,
    {
        let ghost pre = rs.subrange(0, i as int);
        let ghost next = rs.subrange(0, i + 1);
        proof {
            assert(next.drop_last() =~= pre);
            assert(next.last() == outcome_view(orig[i as int]));
        }
        let item = items.remove(0);
        proof {
            assert(item == orig[i as int]);
            assert(items@ =~= orig.subrange(i + 1, n as int));
        }
        match item {
            Ok(bytes) => {
                let ghost before = out@;
                out.push(bytes);
                proof {
                    assert(contents(out@) =~= contents(before).push(next.last()->Ok_0));
                }
            },
            Err(e) => {
                proof {
                    assert(next.last() == Err::<Seq<u8>, IoFailure>(e));
                    assert(batch_outcome(next) == Err::<Seq<Seq<u8>>, IoFailure>(e));
                    lemma_batch_failure_stays(rs, i + 1);
                }
                return Err(e);
            },
        }
        i = i + 1;
    }
    proof {
        assert(rs.subrange(0, n as int) =~= rs);
    }
    Ok(out)
}

/// Once a failure is among the first `k` outcomes, the batch fails with
/// it, whatever the later reads gave.
pub proof fn lemma_batch_failure_stays(rs: Seq<Result<Seq<u8>, IoFailure>>, k: int)
    requires
        0 <= k <= rs.len(),
        batch_outcome(rs.subrange(0, k)) is Err,
    ensures
        batch_outcome(rs) == batch_outcome(rs.subrange(0, k)),
    decreases rs.len() - k,
{
    if k == rs.len() {
        assert(rs.subrange(0, k) =~= rs);
    } else {
        let next = rs.subrange(0, k + 1);
        assert(next.drop_last() =~= rs.subrange(0, k));
        lemma_batch_failure_stays(rs, k + 1);
    }
}

/// A batch in which any read failed fails as a whole: it hands back no
/// bytes at all.
pub proof fn lemma_batch_fail_fast(rs: Seq<Result<Seq<u8>, IoFailure>>, i: int)
    requires
        0 <= i < rs.len(),
        rs[i] is Err,
    ensures
        batch_outcome(rs) is Err,
{
    let pre = rs.subrange(0, i);
    let next = rs.subrange(0, i + 1);
    assert(next.drop_last() =~= pre);
    lemma_batch_failure_stays(rs, i + 1);
}

/// A batch whose reads all succeeded gives every read's bytes, in the
/// order of the reads.
pub proof fn lemma_batch_all_ok(rs: Seq<Result<Seq<u8>, IoFailure>>)
    requires
        forall|i: int| 0 <= i < rs.len() ==> #[trigger] rs[i] is Ok,
    ensures
        batch_outcome(rs) matches Ok(vs) && vs.len() == rs.len() && forall|i: int|
            0 <= i < rs.len() ==> Ok::<Seq<u8>, IoFailure>(#[trigger] vs[i]) == rs[i],
    decreases rs.len(),
{
    if rs.len() > 0 {
        let p = rs.drop_last();
        assert forall|i: int| 0 <= i < p.len() implies #[trigger] p[i] is Ok by {
            assert(p[i] == rs[i]);
        }
        lemma_batch_all_ok(p);
        assert(rs.last() == rs[rs.len() - 1]);
    }
}

} // verus!
