//! The thread pool: when there is one, and where its threads find their stacks.
//!
//! A binary cannot start threads itself. Its host starts helpers, each of which
//! waits on a channel. Building the pool sends one thread to each of them, so
//! the channel has to be there, and the helpers waiting, before the pool is
//! built.
use vstd::prelude::*;

verus! {

/// A thread pool of `rayon`.
#[verifier::external_type_specification]
#[verifier::external_body]
pub struct ExThreadPool(rayon::ThreadPool);

/// A thread of a pool of `rayon` that is yet to run.
#[verifier::external_type_specification]
#[verifier::external_body]
pub struct ExThreadBuilder(rayon::ThreadBuilder);

/// The sending side of a channel of `crossbeam_channel`.
#[verifier::external_type_specification]
#[verifier::external_body]
#[verifier::reject_recursive_types(T)]
pub struct ExSender<T>(crossbeam_channel::Sender<T>);

/// The receiving side of a channel of `crossbeam_channel`.
#[verifier::external_type_specification]
#[verifier::external_body]
#[verifier::reject_recursive_types(T)]
pub struct ExReceiver<T>(crossbeam_channel::Receiver<T>);

/// How many threads can wait in the channel that a receiver reads: its
/// `capacity`.
pub uninterp spec fn channel_limit(
    receiver: crossbeam_channel::Receiver<rayon::ThreadBuilder>,
) -> nat;

/// How many threads can wait in the channel that a sender fills: its `capacity`.
pub uninterp spec fn sender_limit(
    sender: crossbeam_channel::Sender<rayon::ThreadBuilder>,
) -> nat;

/// The channel that a sender sends into.
pub uninterp spec fn sender_channel(
    sender: crossbeam_channel::Sender<rayon::ThreadBuilder>,
) -> int;

/// The channel that a receiver reads.
pub uninterp spec fn receiver_channel(
    receiver: crossbeam_channel::Receiver<rayon::ThreadBuilder>,
) -> int;

/// Calls `crossbeam_channel::bounded`, which makes a channel that holds up to
/// `limit` threads, and gives its two sides. It panics where the slots take more
/// than half of the address space; on no machine does a slot take more than 128
/// bytes. Claims that both sides are those of one channel, and its limit.
#[verifier::external_body]
fn channel(limit: usize) -> (r: (
    crossbeam_channel::Sender<rayon::ThreadBuilder>,
    crossbeam_channel::Receiver<rayon::ThreadBuilder>,
))
    requires
        limit <= usize::MAX / 256,
    ensures
        sender_channel(r.0) == receiver_channel(r.1),
        sender_limit(r.0) == limit,
        channel_limit(r.1) == limit,
{
    crossbeam_channel::bounded(limit)
}

/// `rayon::ThreadPool::install` runs `op` once in the pool and returns what it
/// returns.
pub assume_specification<OP, R>[ rayon::ThreadPool::install::<OP, R> ](
    threads: &rayon::ThreadPool,
    op: OP,
) -> (r: R) where OP: FnOnce() -> R + Send, R: Send
    requires
        op.requires(()),
    ensures
        op.ensures((), r),
;

/// What is needed to build a pool.
pub struct PoolBuilder {
    pub num_threads: usize,
    pub sender: crossbeam_channel::Sender<rayon::ThreadBuilder>,
    pub receiver: crossbeam_channel::Receiver<rayon::ThreadBuilder>,
}

impl PoolBuilder {
    /// What is sent is received, and the channel has room for every thread.
    pub open spec fn wf(self) -> bool {
        &&& sender_channel(self.sender) == receiver_channel(self.receiver)
        &&& sender_limit(self.sender) == self.num_threads
        &&& channel_limit(self.receiver) == self.num_threads
    }
}

/// The pool and its channel, as far as they are there.
pub struct PoolState {
    pub pool: Option<rayon::ThreadPool>,
    /// Boxed, so that the receiver stays where the helpers look for it.
    pub builder: Option<Box<PoolBuilder>>,
}

impl PoolState {
    /// The channel, if there is one, is sound.
    pub open spec fn wf(self) -> bool {
        self.builder matches Some(b) ==> b.wf()
    }

    /// There is a pool.
    pub open spec fn threaded(self) -> bool {
        self.pool is Some
    }

    /// No pool and no channel.
    pub fn new() -> (r: PoolState)
        ensures
            r.wf(),
            r.pool is None,
            r.builder is None,
            r.threaded() == threaded_after(Seq::empty()),
    {
        PoolState { pool: None, builder: None }
    }
}

/// What is done to a pool.
pub enum PoolCall {
    /// [`init`].
    Init,
    /// [`built`], and whether there was a pool.
    Build(bool),
    /// [`shutdown`].
    Shutdown,
}

/// Whether there is a pool after a call, given whether there was one before.
pub open spec fn threaded_by(call: PoolCall, before: bool) -> bool {
    match call {
        PoolCall::Init => before,
        PoolCall::Build(made) => before || made,
        PoolCall::Shutdown => false,
    }
}

/// Whether there is a pool after these calls.
pub open spec fn threaded_after(calls: Seq<PoolCall>) -> bool
    decreases calls.len(),
{
    if calls.len() == 0 {
        false
    } else {
        threaded_by(calls.last(), threaded_after(calls.drop_last()))
    }
}

/// The call with index `i` built a pool, and it was not shut down since.
pub open spec fn built_at(calls: Seq<PoolCall>, i: int) -> bool {
    0 <= i < calls.len() && calls[i] == PoolCall::Build(true) && forall|j: int|
        i < j < calls.len() ==> !((#[trigger] calls[j]) is Shutdown)
}

proof fn lemma_built_before(calls: Seq<PoolCall>, i: int)
    requires
        calls.len() > 0,
        0 <= i < calls.len() - 1,
    ensures
        built_at(calls, i) <==> built_at(calls.drop_last(), i) && !(calls.last() is Shutdown),
{
    let front = calls.drop_last();
    assert(front[i] == calls[i]);
    if built_at(calls, i) {
        assert(!(calls[calls.len() - 1] is Shutdown));
        assert forall|j: int| i < j < front.len() implies !((#[trigger] front[j]) is Shutdown) by {
            assert(front[j] == calls[j]);
        }
    }
    if built_at(front, i) && !(calls.last() is Shutdown) {
        assert forall|j: int| i < j < calls.len() implies !((#[trigger] calls[j]) is Shutdown) by {
            if j < front.len() {
                assert(front[j] == calls[j]);
            }
        }
    }
}

/// There is a pool exactly where one was built and not shut down since. Making
/// a channel, or building in vain, changes nothing.
pub proof fn law_threaded_since_build(calls: Seq<PoolCall>)
    ensures
        threaded_after(calls) <==> exists|i: int| built_at(calls, i),
    decreases calls.len(),
{
    if calls.len() > 0 {
        let front = calls.drop_last();
        law_threaded_since_build(front);
        if threaded_after(calls) {
            if threaded_after(front) {
                let i = choose|i: int| built_at(front, i);
                lemma_built_before(calls, i);
                assert(built_at(calls, i));
            } else {
                assert(built_at(calls, calls.len() - 1));
            }
        }
        if exists|i: int| built_at(calls, i) {
            let i = choose|i: int| built_at(calls, i);
            if i < calls.len() - 1 {
                lemma_built_before(calls, i);
                assert(built_at(front, i));
            }
        }
    }
}

/// Makes the channel for `num_threads` helpers, instead of an earlier one.
pub fn init(state: &mut PoolState, num_threads: usize)
    requires
        num_threads <= usize::MAX / 256,
    ensures
        final(state).wf(),
        final(state).pool == old(state).pool,
        final(state).builder matches Some(b) && b.num_threads == num_threads,
        final(state).threaded() == threaded_by(PoolCall::Init, old(state).threaded()),
{
    let (sender, receiver) = channel(num_threads);
    state.builder = Some(Box::new(PoolBuilder { num_threads, sender, receiver }));
}

/// What the pool is to be built from: nothing before [`init`].
pub fn to_build(state: &PoolState) -> (r: Option<&PoolBuilder>)
    requires
        state.wf(),
    ensures
        match state.builder {
            Some(b) => r == Some(&*b) && b.wf(),
            None => r is None,
        },
{
    match &state.builder {
        Some(b) => Some(&**b),
        None => None,
    }
}

/// Keeps the pool that was built. Where building failed all stays as it was.
pub fn built(state: &mut PoolState, pool: Option<rayon::ThreadPool>)
    ensures
        final(state).builder == old(state).builder,
        final(state).pool == match pool {
            Some(p) => Some(p),
            None => old(state).pool,
        },
        final(state).threaded() == threaded_by(
            PoolCall::Build(pool is Some),
            old(state).threaded(),
        ),
{
    if let Some(p) = pool {
        state.pool = Some(p);
    }
}

/// Drops the pool, which lets the helpers go, and closes the channel.
pub fn shutdown(state: &mut PoolState)
    ensures
        final(state).wf(),
        final(state).pool is None,
        final(state).builder is None,
        final(state).threaded() == threaded_by(PoolCall::Shutdown, old(state).threaded()),
{
    state.pool = None;
    state.builder = None;
}

/// Is there a pool?
pub fn is_threaded(state: &PoolState) -> (r: bool)
    ensures
        r == state.threaded(),
{
    state.pool.is_some()
}

/// Runs `f`, in the pool if there is one.
pub fn install<R: Send, F: FnOnce() -> R + Send>(state: &PoolState, f: F) -> (r: R)
    requires
        f.requires(()),
    ensures
        f.ensures((), r),
{
    match &state.pool {
        Some(pool) => pool.install(f),
        None => f(),
    }
}

/// The alignment of thread-local data; none counts as 1.
pub open spec fn alignment(tls_align: usize) -> nat {
    if tls_align < 1 {
        1
    } else {
        tls_align as nat
    }
}

/// The size of a block for a stack and the thread-local data behind it.
pub open spec fn block_size(stack_size: usize, tls_size: usize, tls_align: usize) -> nat {
    (stack_size + tls_size + alignment(tls_align)) as nat
}

/// Where thread-local data starts behind a stack that ends at `top`.
pub open spec fn tls_start(top: u64, align: u64) -> u64 {
    ((top + align - 1) as u64) & !((align - 1) as u64)
}

/// The block holds the stack and, behind it, the thread-local data, aligned:
/// the two do not overlap, and neither reaches out of the block. Alignments are
/// powers of two.
pub proof fn law_block_holds_stack_and_tls(
    base: u32,
    stack_size: usize,
    tls_size: usize,
    tls_align: usize,
    k: nat,
)
    requires
        alignment(tls_align) == vstd::arithmetic::power2::pow2(k),
        base + block_size(stack_size, tls_size, tls_align) <= 0x1_0000_0000,
    ensures
        ({
            let top = base + stack_size;
            let tls = tls_start(top as u64, alignment(tls_align) as u64);
            &&& top <= tls
            &&& tls + tls_size <= base + block_size(stack_size, tls_size, tls_align)
            &&& tls as int % alignment(tls_align) as int == 0
            &&& tls < top + alignment(tls_align)
            &&& alignment(tls_align) >= 1 && alignment(tls_align) >= tls_align
            &&& tls_align > 0 ==> alignment(tls_align) == tls_align
        }),
{
    let top = (base + stack_size) as u64;
    let align = alignment(tls_align) as u64;
    let tls = tls_start(top, align);
    let sum = (top + align - 1) as u64;
    let low = (align - 1) as u64;
    vstd::arithmetic::power2::lemma2_to64();
    vstd::arithmetic::power2::lemma_pow2_pos(k);
    if k > 32 {
        vstd::arithmetic::power2::lemma_pow2_strictly_increases(32, k);
    }
    assert(low == vstd::bits::low_bits_mask(k));
    vstd::bits::lemma_u64_low_bits_mask_is_mod(sum, k);
    vstd::bits::lemma_u64_low_bits_mask_is_mod(tls, k);
    assert((sum & !low) + (sum & low) == sum && (sum & !low) & low == 0) by (bit_vector);
    assert(sum % align < align);
}

/// Where a stack ends and where the thread-local data behind it starts, as one
/// number: the upper half and the lower half.
pub open spec fn divided(base: u32, stack_size: usize, tls_size: usize, tls_align: usize) -> int {
    (base + stack_size) * 0x1_0000_0000 + tls_start(
        (base + stack_size) as u64,
        alignment(tls_align) as u64,
    )
}

/// The two halves say where the stack ends and where the thread-local data starts,
/// and neither runs into the other. What there is to align is at the first multiple
/// of the alignment behind the stack.
pub proof fn law_halves_are_told_apart(
    base: u32,
    stack_size: usize,
    tls_size: usize,
    tls_align: usize,
    k: nat,
)
    requires
        alignment(tls_align) == vstd::arithmetic::power2::pow2(k),
        base + block_size(stack_size, tls_size, tls_align) <= 0x1_0000_0000,
    ensures
        ({
            let both = divided(base, stack_size, tls_size, tls_align);
            let (top, tls) = (both / 0x1_0000_0000, both % 0x1_0000_0000);
            &&& top == base + stack_size
            &&& top <= tls < top + alignment(tls_align)
            &&& tls % (alignment(tls_align) as int) == 0
            &&& tls + tls_size <= base + block_size(stack_size, tls_size, tls_align)
            &&& block_size(stack_size, tls_size, tls_align) == stack_size + tls_size + alignment(
                tls_align,
            )
        }),
{
    law_block_holds_stack_and_tls(base, stack_size, tls_size, tls_align, k);
    let tls = tls_start((base + stack_size) as u64, alignment(tls_align) as u64) as int;
    let top = base + stack_size;
    assert(tls < 0x1_0000_0000);
    assert((top * 0x1_0000_0000 + tls) / 0x1_0000_0000 == top);
    assert((top * 0x1_0000_0000 + tls) % 0x1_0000_0000 == tls);
}

/// The size of the block to ask for.
pub fn thread_block_size(stack_size: usize, tls_size: usize, tls_align: usize) -> (r: u32)
    requires
        block_size(stack_size, tls_size, tls_align) <= u32::MAX,
    ensures
        r == block_size(stack_size, tls_size, tls_align),
{
    let align: usize = if tls_align < 1 {
        1
    } else {
        tls_align
    };
    (stack_size + tls_size + align) as u32
}

/// Divides the block at `base` into a stack and the thread-local data behind
/// it. The upper half of the result is where the stack starts, growing down,
/// the lower half where the data starts.
pub fn alloc_thread_stack(base: u32, stack_size: usize, tls_size: usize, tls_align: usize) -> (r:
    u64)
    requires
        base + block_size(stack_size, tls_size, tls_align) <= 0x1_0000_0000,
    ensures
        r == divided(base, stack_size, tls_size, tls_align),
        r == (base + stack_size) * 0x1_0000_0000 + tls_start(
            (base + stack_size) as u64,
            alignment(tls_align) as u64,
        ),
{
    let align: u64 = if tls_align < 1 {
        1
    } else {
        tls_align as u64
    };
    let top: u64 = base as u64 + stack_size as u64;
    let tls: u64 = (top + (align - 1)) & !(align - 1);
    let sum: u64 = top + (align - 1);
    let low: u64 = align - 1;
    assert(sum & !low <= sum) by (bit_vector);
    assert((top << 32) | (tls & 0xffff_ffff) == top * 0x1_0000_0000 + tls) by (bit_vector)
        requires
            top < 0x1_0000_0000,
            tls < 0x1_0000_0000,
    ;
    (top << 32) | (tls & 0xffff_ffff)
}

} // verus!
