use uwu_infra::top_k::{metadata_matches, top_k_positions};

fn keys_of(keys: &[u64], pos: &[usize]) -> Vec<u64> {
    pos.iter().map(|&i| keys[i]).collect()
}

#[test]
fn picks_the_largest_keys_largest_first() {
    let keys = vec![5, 1, 9, 3, 7];
    let r = top_k_positions(&keys, 3);
    assert_eq!(r, vec![2, 4, 0]);
    assert_eq!(keys_of(&keys, &r), vec![9, 7, 5]);
}

#[test]
fn ties_keep_the_key_multiset() {
    let keys = vec![5, 1, 9, 3, 9];
    let r = top_k_positions(&keys, 2);
    assert_eq!(keys_of(&keys, &r), vec![9, 9]);
    let mut sorted = r.clone();
    sorted.sort();
    assert_eq!(sorted, vec![2, 4]);
}

#[test]
fn at_least_one_and_at_most_all() {
    let keys = vec![4, 8, 6];
    assert_eq!(top_k_positions(&keys, 0), vec![1]);
    assert_eq!(top_k_positions(&keys, 10), vec![1, 2, 0]);
    assert_eq!(top_k_positions(&vec![], 3), Vec::<usize>::new());
}

#[test]
fn metadata_filter_needs_every_pair() {
    let p = |k: &str, v: &str| (k.to_string(), v.to_string());
    let meta = vec![p("kind", "\"note\""), p("n", "1")];
    assert!(metadata_matches(&vec![], &meta));
    assert!(metadata_matches(&vec![p("n", "1")], &meta));
    assert!(metadata_matches(&vec![p("n", "1"), p("kind", "\"note\"")], &meta));
    assert!(!metadata_matches(&vec![p("n", "2")], &meta));
    assert!(!metadata_matches(&vec![p("missing", "1")], &meta));
}
