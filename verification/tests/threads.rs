use wasm_zero::parallel::is_prime;
use wasm_zero::parallel::parallel_count_primes;
use wasm_zero::parallel::parallel_sum_squares;
use wasm_zero::parallel::SUM_LIMIT;
use wasm_zero::pool::alloc_thread_stack;
use wasm_zero::pool::built;
use wasm_zero::pool::init;
use wasm_zero::pool::install;
use wasm_zero::pool::is_threaded;
use wasm_zero::pool::shutdown;
use wasm_zero::pool::thread_block_size;
use wasm_zero::pool::to_build;
use wasm_zero::pool::PoolState;

fn two_threads() -> rayon::ThreadPool {
    rayon::ThreadPoolBuilder::new().num_threads(2).build().unwrap()
}

#[test]
fn a_pool_comes_and_goes() {
    let mut state = PoolState::new();
    assert!(!is_threaded(&state));
    assert!(to_build(&state).is_none());
    init(&mut state, 3);
    let builder = to_build(&state).unwrap();
    assert_eq!(builder.num_threads, 3);
    assert_eq!(builder.receiver.capacity(), Some(3));
    assert_eq!(builder.sender.capacity(), Some(3));
    built(&mut state, None);
    assert!(!is_threaded(&state));
    built(&mut state, Some(two_threads()));
    assert!(is_threaded(&state));
    init(&mut state, 0);
    assert!(is_threaded(&state));
    assert_eq!(to_build(&state).unwrap().receiver.capacity(), Some(0));
    shutdown(&mut state);
    assert!(!is_threaded(&state));
    assert!(to_build(&state).is_none());
}

#[test]
fn what_is_sent_is_received() {
    let mut state = PoolState::new();
    init(&mut state, 1);
    let builder = to_build(&state).unwrap();
    let failed = rayon::ThreadPoolBuilder::new()
        .num_threads(1)
        .spawn_handler(|thread| {
            builder.sender.send(thread).unwrap();
            Err(std::io::Error::other("nobody waits"))
        })
        .build();
    assert!(failed.is_err());
    assert_eq!(builder.receiver.len(), 1);
    assert_eq!(builder.receiver.recv().unwrap().index(), 0);
}

#[test]
fn work_runs_in_the_pool_if_there_is_one() {
    let mut state = PoolState::new();
    assert_eq!(install(&state, || 41 + 1), 42);
    assert_eq!(install(&state, rayon::current_thread_index), None);
    built(&mut state, Some(two_threads()));
    assert_eq!(install(&state, || 41 + 1), 42);
    assert!(install(&state, rayon::current_thread_index).is_some());
}

#[test]
fn sums_are_the_same_with_and_without_threads() {
    let alone = PoolState::new();
    let mut threaded = PoolState::new();
    built(&mut threaded, Some(two_threads()));
    for (n, want) in [(0, 0), (1, 0), (2, 1), (5, 30), (1000, 332833500)] {
        assert_eq!(parallel_sum_squares(&alone, n), want);
        assert_eq!(parallel_sum_squares(&threaded, n), want);
    }
    assert_eq!(parallel_sum_squares(&alone, SUM_LIMIT), 18446735571075162805);
    assert_eq!(parallel_sum_squares(&threaded, SUM_LIMIT), 18446735571075162805);
}

#[test]
fn primes_are_the_same_with_and_without_threads() {
    let alone = PoolState::new();
    let mut threaded = PoolState::new();
    built(&mut threaded, Some(two_threads()));
    for (n, want) in [(0, 0), (2, 0), (3, 1), (10, 4), (100, 25), (1000, 168)] {
        assert_eq!(parallel_count_primes(&alone, n), want);
        assert_eq!(parallel_count_primes(&threaded, n), want);
    }
}

#[test]
fn primes_are_told_apart() {
    assert!(is_prime(2) && is_prime(3) && is_prime(65537));
    assert!(!is_prime(4) && !is_prime(49) && !is_prime(65535));
    assert!(is_prime(4294967291));
    assert!(!is_prime(4294967295));
    assert!(!is_prime(4294836225));
}

#[test]
fn blocks_hold_a_stack_and_thread_local_data() {
    assert_eq!(thread_block_size(1000, 100, 16), 1116);
    assert_eq!(thread_block_size(0, 100, 0), 101);
    let packed = alloc_thread_stack(4096, 1000, 100, 16);
    assert_eq!(packed >> 32, 5096);
    assert_eq!(packed & 0xffff_ffff, 5104);
    let packed = alloc_thread_stack(4096, 0, 100, 1);
    assert_eq!((packed >> 32, packed & 0xffff_ffff), (4096, 4096));
}
