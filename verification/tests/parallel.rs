use indexmap::IndexMap;
use snarkvm::index_map::{cfg_find_value, cfg_find_value_map};
use snarkvm::io_error::error;
use snarkvm::parallel::{
    cfg_iter, cfg_iter_ref, execute_with_max_available_threads, max_available_threads, threads_for, CpuVendor, ExecutionPool,
};
use snarkvm::sorting::{cfg_sort_by_cached_key, cfg_sort_unstable_by};

#[test]
fn execution_pool_runs_jobs_in_order() {
    let mut pool = ExecutionPool::with_capacity(3);
    for i in 0..3u64 {
        pool.add_job(move || i * 10);
    }
    assert_eq!(pool.execute_all(), vec![0, 10, 20]);
    let empty: ExecutionPool<u64, fn() -> u64> = ExecutionPool::new();
    assert_eq!(empty.execute_all(), Vec::<u64>::new());
    let default: ExecutionPool<u64, fn() -> u64> = ExecutionPool::default();
    assert!(default.execute_all().is_empty());
}

#[test]
fn execute_returns_the_result() {
    assert_eq!(execute_with_max_available_threads(|| 6 * 7), 42);
}

#[test]
fn iterates_in_order() {
    let items: Vec<u64> = cfg_iter(vec![3, 1, 2]).collect();
    assert_eq!(items, vec![3, 1, 2]);
}

#[test]
fn sorts_with_a_comparator() {
    let mut v = vec![5u64, 4, 1, 3, 2];
    cfg_sort_unstable_by(&mut v, |a, b| a.cmp(b));
    assert_eq!(v, vec![1, 2, 3, 4, 5]);
    cfg_sort_unstable_by(&mut v, |a, b| b.cmp(a));
    assert_eq!(v, vec![5, 4, 3, 2, 1]);
    let mut empty: Vec<u64> = vec![];
    cfg_sort_unstable_by(&mut empty, |a, b| a.cmp(b));
    assert!(empty.is_empty());
}

#[test]
fn sorts_by_cached_key() {
    let mut v = vec![-5i32, 4, 32, -3, 2];
    cfg_sort_by_cached_key(&mut v, |k| k.to_string());
    assert_eq!(v, vec![-3, -5, 2, 32, 4]);
    // The sort is stable: equal keys keep their order.
    let mut pairs = vec![(2u8, 'a'), (1, 'b'), (2, 'c'), (1, 'd')];
    cfg_sort_by_cached_key(&mut pairs, |p| p.0);
    assert_eq!(pairs, vec![(1, 'b'), (1, 'd'), (2, 'a'), (2, 'c')]);
}

#[test]
fn finds_values_in_an_index_map() {
    let mut map: IndexMap<u64, u64> = IndexMap::new();
    map.insert(1, 10);
    map.insert(2, 25);
    map.insert(3, 30);
    let values: Vec<u64> = map.values().copied().collect();
    assert_eq!(cfg_find_value(&values, |v| *v == 25), Some(&25));
    assert_eq!(cfg_find_value(&values, |v| *v > 100), None);
    let found = cfg_find_value(&values, |v| *v >= 25).unwrap();
    assert!(*found == 25 || *found == 30);
    assert_eq!(cfg_find_value(&Vec::<u64>::new(), |_v| true), None);
}

#[test]
fn finds_mapped_values_in_an_index_map() {
    let mut map: IndexMap<u64, (u64, Option<String>)> = IndexMap::new();
    map.insert(1, (1, None));
    map.insert(2, (2, Some("two".to_string())));
    map.insert(3, (3, None));
    let values: Vec<(u64, Option<String>)> = map.values().cloned().collect();
    assert_eq!(cfg_find_value_map(&values, |v| v.1.as_ref()), Some(&"two".to_string()));
    let none: Vec<(u64, Option<String>)> = vec![(1, None), (3, None)];
    assert_eq!(cfg_find_value_map(&none, |v| v.1.as_ref()), None);
    let empty: Vec<(u64, Option<String>)> = vec![];
    assert_eq!(cfg_find_value_map(&empty, |v| v.1.as_ref()), None);
}

#[test]
fn error_carries_its_message() {
    let e = error("Invalid batch certificate version");
    assert_eq!(e.kind(), std::io::ErrorKind::Other);
    assert_eq!(e.to_string(), "Invalid batch certificate version");
    assert_eq!(error(format!("count {}", 3)).to_string(), "count 3");
}

#[test]
fn thread_count_policy() {
    assert_eq!(threads_for(CpuVendor::Intel, 4, 8), 4);
    assert_eq!(threads_for(CpuVendor::Intel, 16, 8), 8);
    assert_eq!(threads_for(CpuVendor::AMD, 4, 8), 8);
    assert_eq!(threads_for(CpuVendor::Unknown, 4, 8), 8);
    let n = max_available_threads();
    assert!(n >= 1);
    assert!(n <= rayon::current_num_threads());
}

#[test]
fn iterates_by_reference_and_keeps_the_data() {
    let my_data = vec![1, 2, 3];
    let refs: Vec<&i32> = cfg_iter_ref(&my_data).collect();
    assert_eq!(refs, vec![&1, &2, &3]);
    assert_eq!(my_data, vec![1, 2, 3]);
    let owned: Vec<i32> = cfg_iter(my_data).collect();
    assert_eq!(owned, vec![1, 2, 3]);
}
