use bughouse_server::pairings::{
    combinations, contains, contains_usize, contains_vec, copy, create_pairings, create_pairings_wr, create_team_pairings,
    diff_values, map_indices, rm_ordering, team_comb, teams_of,
};
use std::collections::VecDeque;

fn expected_four() -> Vec<((u8, u8), (u8, u8))> {
    vec![
        ((1, 2), (3, 4)),
        ((1, 2), (4, 3)),
        ((2, 1), (3, 4)),
        ((2, 1), (4, 3)),
        ((1, 3), (2, 4)),
        ((1, 3), (4, 2)),
        ((3, 1), (2, 4)),
        ((3, 1), (4, 2)),
        ((2, 3), (1, 4)),
        ((2, 3), (4, 1)),
        ((3, 2), (1, 4)),
        ((3, 2), (4, 1)),
        ((1, 4), (2, 3)),
        ((1, 4), (3, 2)),
        ((4, 1), (2, 3)),
        ((4, 1), (3, 2)),
        ((2, 4), (1, 3)),
        ((2, 4), (3, 1)),
        ((4, 2), (1, 3)),
        ((4, 2), (3, 1)),
        ((3, 4), (1, 2)),
        ((3, 4), (2, 1)),
        ((4, 3), (1, 2)),
        ((4, 3), (2, 1)),
    ]
}

#[test]
fn pairings_for_four_players_are_the_known_queue() {
    let q: Vec<_> = create_pairings(4).into_iter().collect();
    assert_eq!(q, expected_four());
}

#[test]
fn wrapper_gives_the_same_queue_for_four() {
    let q: Vec<_> = create_pairings_wr(4).into_iter().collect();
    assert_eq!(q, expected_four());
}

#[test]
fn pairings_for_five_players_count() {
    let q = create_pairings(5);
    assert_eq!(q.len(), 120);
    for ((a, b), (c, d)) in q.iter().copied() {
        let v = [a, b, c, d];
        for i in 0..4 {
            assert!(v[i] >= 1 && v[i] <= 5);
            for j in (i + 1)..4 {
                assert_ne!(v[i], v[j]);
            }
        }
    }
}

#[test]
fn too_few_players_give_no_pairing() {
    assert_eq!(create_pairings(0).len(), 0);
    assert_eq!(create_pairings(3).len(), 0);
}

#[test]
fn teams_are_ordered_by_larger_member() {
    assert_eq!(teams_of(&vec![1, 2, 3, 4]), vec![(1, 2), (1, 3), (2, 3), (1, 4), (2, 4), (3, 4)]);
    assert_eq!(teams_of(&vec![7, 5, 9]), vec![(7, 5), (7, 9), (5, 9)]);
    assert_eq!(teams_of(&vec![1]), vec![]);
}

#[test]
fn team_pairings_keep_disjoint_teams() {
    let m: Vec<_> = create_team_pairings(&vec![(1, 2), (1, 3), (3, 4)]).into_iter().collect();
    assert_eq!(m, vec![[1, 2, 3, 4], [3, 4, 1, 2]]);
}

#[test]
fn team_comb_expands_colour_orders() {
    let mut v = VecDeque::new();
    v.push_back([1u8, 2, 3, 4]);
    let q: Vec<_> = team_comb(&v).into_iter().collect();
    assert_eq!(q, vec![((1, 2), (3, 4)), ((1, 2), (4, 3)), ((2, 1), (3, 4)), ((2, 1), (4, 3))]);
}

#[test]
fn vector_helpers() {
    assert_eq!(contains(&vec![4, 2, 4], 4), Some(0));
    assert_eq!(contains(&vec![4, 2, 4], 2), Some(1));
    assert_eq!(contains(&vec![4, 2, 4], 3), None);
    assert!(contains_usize(&vec![10, 20], 20));
    assert!(!contains_usize(&vec![10, 20], 30));
    assert_eq!(copy(&vec![3, 1, 2]), vec![3, 1, 2]);
    let mut v = vec![1, 2, 3, 2, 4];
    diff_values(&mut v, &vec![2, 4, 9]);
    assert_eq!(v, vec![1, 3, 2]);
    assert_eq!(contains_vec(&vec![vec![1, 2], vec![2, 1, 5]], vec![2, 1]), Some(1));
    assert_eq!(contains_vec(&vec![vec![1, 2]], vec![3, 1]), None);
}

fn ordered_pairs_of_four() -> Vec<Vec<u8>> {
    vec![
        vec![1, 2],
        vec![1, 3],
        vec![1, 4],
        vec![2, 1],
        vec![2, 3],
        vec![2, 4],
        vec![3, 1],
        vec![3, 2],
        vec![3, 4],
        vec![4, 1],
        vec![4, 2],
        vec![4, 3],
    ]
}

#[test]
fn combinations_are_ordered_tuples() {
    let mut l = vec![1u8, 2, 3, 4];
    assert_eq!(combinations(&mut l, 2), ordered_pairs_of_four());
    assert_eq!(l, vec![1, 2, 3, 4]);
    let triples = combinations(&mut l, 3);
    assert_eq!(triples.len(), 24);
    assert_eq!(triples[0], vec![1, 2, 3]);
    assert_eq!(triples[1], vec![1, 2, 4]);
    assert_eq!(triples[23], vec![4, 3, 2]);
    assert_eq!(combinations(&mut l, 0), vec![Vec::<u8>::new()]);
    assert_eq!(combinations(&mut l, 5), Vec::<Vec<u8>>::new());
}

#[test]
fn reverse_indices_of_ordered_pairs() {
    assert_eq!(map_indices(&ordered_pairs_of_four()), vec![3, 6, 9, 0, 7, 10, 1, 4, 11, 2, 5, 8]);
    assert_eq!(map_indices(&vec![vec![1, 2], vec![1, 3]]), Vec::<usize>::new());
}

#[test]
fn rm_ordering_keeps_first_copy() {
    let mut v = ordered_pairs_of_four();
    let kept = rm_ordering(&mut v);
    assert_eq!(kept, vec![vec![1, 2], vec![1, 3], vec![2, 3], vec![1, 4], vec![2, 4], vec![3, 4]]);
    assert_eq!(v, ordered_pairs_of_four());
}
