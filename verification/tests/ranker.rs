use sysprobe::ranker::{rank_top, ProcessSample};

fn sample(pid: u32, name: &str, cpu_usage: u64, memory_usage: u64) -> ProcessSample {
    ProcessSample { pid, name: name.to_string(), cpu_usage, memory_usage }
}

fn pids(list: &[ProcessSample]) -> Vec<u32> {
    list.iter().map(|p| p.pid).collect()
}

#[test]
fn empty_input_ranks_empty() {
    assert_eq!(rank_top(Vec::new(), 0).len(), 0);
    assert_eq!(rank_top(Vec::new(), 10).len(), 0);
}

#[test]
fn top_two_resorted_by_memory() {
    // Three processes with cpu [10, 50, 30] and memory [100, 10, 200]: the
    // top two by CPU are the 50-cpu/10-mem and 30-cpu/200-mem ones, shown
    // heaviest-memory-first.
    let samples = vec![
        sample(1, "a", 10, 100),
        sample(2, "b", 50, 10),
        sample(3, "c", 30, 200),
    ];
    let ranked = rank_top(samples, 2);
    assert_eq!(ranked.len(), 2);
    assert_eq!(ranked[0].pid, 3);
    assert_eq!(ranked[0].cpu_usage, 30);
    assert_eq!(ranked[0].memory_usage, 200);
    assert_eq!(ranked[1].pid, 2);
    assert_eq!(ranked[1].cpu_usage, 50);
    assert_eq!(ranked[1].memory_usage, 10);
}

#[test]
fn oversized_n_returns_all_by_memory_descending() {
    let samples = vec![
        sample(7, "x", 5, 300),
        sample(8, "y", 90, 100),
        sample(9, "z", 40, 700),
    ];
    let ranked = rank_top(samples, 10);
    assert_eq!(pids(&ranked), vec![9, 7, 8]);
    assert!(ranked.windows(2).all(|w| w[0].memory_usage >= w[1].memory_usage));
}

#[test]
fn n_zero_selects_nothing() {
    let samples = vec![sample(1, "a", 10, 100), sample(2, "b", 20, 50)];
    assert_eq!(rank_top(samples, 0).len(), 0);
}

#[test]
fn cpu_ties_keep_input_order() {
    // All CPU keys equal: the stable selection takes the first two in input
    // order, then presents them by memory descending.
    let samples = vec![
        sample(1, "a", 10, 5),
        sample(2, "b", 10, 7),
        sample(3, "c", 10, 6),
    ];
    let ranked = rank_top(samples, 2);
    assert_eq!(pids(&ranked), vec![2, 1]);
}

#[test]
fn memory_ties_keep_input_order() {
    let samples = vec![
        sample(1, "a", 30, 50),
        sample(2, "b", 20, 50),
        sample(3, "c", 10, 50),
    ];
    let ranked = rank_top(samples, 3);
    assert_eq!(pids(&ranked), vec![1, 2, 3]);
}

#[test]
fn ranking_twice_gives_identical_output() {
    let build = || {
        vec![
            sample(1, "a", 10, 100),
            sample(2, "b", 50, 10),
            sample(3, "c", 30, 200),
            sample(4, "d", 30, 200),
        ]
    };
    let first = rank_top(build(), 3);
    let second = rank_top(build(), 3);
    assert_eq!(first.len(), second.len());
    for (p, q) in first.iter().zip(second.iter()) {
        assert_eq!(p.pid, q.pid);
        assert_eq!(p.name, q.name);
        assert_eq!(p.cpu_usage, q.cpu_usage);
        assert_eq!(p.memory_usage, q.memory_usage);
    }
}
