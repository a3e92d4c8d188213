use lau_electromagnetism::agent_field::{interaction_pairs, interaction_partners};

fn ids(names: &[&str]) -> Vec<String> {
    names.iter().map(|s| s.to_string()).collect()
}

#[test]
fn test_partners_exclude_self() {
    let all = ids(&["a1", "a2", "a3"]);
    assert_eq!(interaction_partners(&all, &"a2".to_string()), vec![0, 2]);
    assert_eq!(interaction_partners(&all, &"a1".to_string()), vec![1, 2]);
}

#[test]
fn test_partners_of_outside_probe() {
    let all = ids(&["a1", "a2"]);
    assert_eq!(interaction_partners(&all, &"probe".to_string()), vec![0, 1]);
}

#[test]
fn test_partners_shared_id_excluded() {
    let all = ids(&["a", "b", "a", "c"]);
    assert_eq!(interaction_partners(&all, &"a".to_string()), vec![1, 3]);
}

#[test]
fn test_partners_empty() {
    let all: Vec<String> = Vec::new();
    assert_eq!(interaction_partners(&all, &"a".to_string()), Vec::<usize>::new());
}

#[test]
fn test_pairs_three_agents() {
    assert_eq!(interaction_pairs(3), vec![(0, 1), (0, 2), (1, 2)]);
}

#[test]
fn test_pairs_small() {
    assert_eq!(interaction_pairs(0), Vec::<(usize, usize)>::new());
    assert_eq!(interaction_pairs(1), Vec::<(usize, usize)>::new());
    assert_eq!(interaction_pairs(2), vec![(0, 1)]);
}

#[test]
fn test_pairs_count() {
    for n in 0..12usize {
        assert_eq!(interaction_pairs(n).len(), n * n.saturating_sub(1) / 2);
    }
}
