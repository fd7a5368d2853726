use snippets::rank::{precedes, rank, Scored, Similarity, MAX_MAGNITUDE, SIGN_BIT};

fn score(value: f32) -> Similarity {
    Similarity::from_bits(value.to_bits()).unwrap()
}

fn scored(id: usize, value: f32) -> Scored {
    Scored { id, score: score(value) }
}

fn ids(list: &Vec<Scored>) -> Vec<usize> {
    list.iter().map(|s| s.id).collect()
}

#[test]
fn score_keeps_its_bits() {
    for value in [0.0f32, 1.0, -1.0, 0.5, -0.25, 1e-30, -3.5e20, f32::INFINITY, f32::NEG_INFINITY] {
        assert_eq!(f32::from_bits(score(value).to_bits()), value);
        assert_eq!(score(value).to_bits(), value.to_bits());
    }
}

#[test]
fn negative_zero_is_zero() {
    let zero = Similarity::from_bits((-0.0f32).to_bits()).unwrap();
    assert_eq!(zero.to_bits(), 0);
    assert_eq!(zero, score(0.0));
    assert_eq!(zero.key(), 0);
}

#[test]
fn nan_is_no_score() {
    assert_eq!(Similarity::from_bits(f32::NAN.to_bits()), None);
    assert_eq!(Similarity::from_bits(MAX_MAGNITUDE + 1), None);
    assert_eq!(Similarity::from_bits(SIGN_BIT + MAX_MAGNITUDE + 1), None);
    assert_eq!(Similarity::from_bits(u32::MAX), None);
    assert!(Similarity::from_bits(MAX_MAGNITUDE).is_some());
    assert!(Similarity::from_bits(SIGN_BIT + MAX_MAGNITUDE).is_some());
}

#[test]
fn key_of_one_is_its_bit_pattern() {
    assert_eq!(score(1.0).key(), 0x3f80_0000);
    assert_eq!(score(-1.0).key(), -0x3f80_0000);
    assert_eq!(score(f32::INFINITY).key(), 0x7f80_0000);
}

#[test]
fn keys_are_ordered_as_the_numbers() {
    let values = [
        f32::NEG_INFINITY, -1e30, -2.0, -1.0, -0.5, -1e-40, 0.0, 1e-40, 0.25, 0.9999999, 1.0, 7.0,
        f32::INFINITY,
    ];
    for a in values {
        for b in values {
            assert_eq!(score(a).key() < score(b).key(), a < b);
            assert_eq!(score(a).key() == score(b).key(), a == b);
        }
    }
}

#[test]
fn higher_score_comes_first() {
    let list = vec![scored(0, 0.1), scored(1, 0.9), scored(2, 0.5)];
    assert_eq!(ids(&rank(&list, 10)), vec![1, 2, 0]);
}

#[test]
fn equal_scores_go_by_ascending_id() {
    let list = vec![scored(7, 0.5), scored(3, 0.5), scored(5, 0.5), scored(1, 0.2), scored(9, 0.8)];
    assert_eq!(ids(&rank(&list, 10)), vec![9, 3, 5, 7, 1]);
}

#[test]
fn both_zeros_are_equal_scores() {
    let list = vec![
        Scored { id: 2, score: Similarity::from_bits(0).unwrap() },
        Scored { id: 1, score: Similarity::from_bits(SIGN_BIT).unwrap() },
    ];
    assert_eq!(ids(&rank(&list, 10)), vec![1, 2]);
}

#[test]
fn negative_scores_come_last() {
    let list = vec![scored(0, -0.5), scored(1, 0.0), scored(2, -0.1), scored(3, 0.3)];
    assert_eq!(ids(&rank(&list, 4)), vec![3, 1, 2, 0]);
}

#[test]
fn ranking_is_cut_to_top_n() {
    let list = vec![scored(0, 0.1), scored(1, 0.9), scored(2, 0.5), scored(3, 0.7)];
    assert_eq!(ids(&rank(&list, 2)), vec![1, 3]);
    assert_eq!(ids(&rank(&list, 1)), vec![1]);
    assert_eq!(ids(&rank(&list, 0)), Vec::<usize>::new());
    assert_eq!(ids(&rank(&list, 4)), vec![1, 3, 2, 0]);
}

#[test]
fn top_n_beyond_the_candidates_gives_all() {
    let list = vec![
        scored(0, 0.3),
        scored(1, 0.1),
        scored(2, 0.4),
        scored(3, 0.15),
        scored(4, 0.9),
    ];
    let ranking = rank(&list, 1000);
    assert_eq!(ranking.len(), 5);
    assert_eq!(ids(&ranking), vec![4, 2, 0, 3, 1]);
    for pair in ranking.windows(2) {
        assert!(f32::from_bits(pair[0].score.to_bits()) >= f32::from_bits(pair[1].score.to_bits()));
    }
    assert_eq!(rank(&list, usize::MAX).len(), 5);
}

#[test]
fn ranking_of_nothing_is_empty() {
    assert_eq!(rank(&Vec::new(), 5), Vec::new());
}

#[test]
fn ranking_keeps_the_scores() {
    let list = vec![scored(0, 0.25), scored(1, 0.75)];
    assert_eq!(rank(&list, 2), vec![scored(1, 0.75), scored(0, 0.25)]);
}

#[test]
fn ranking_does_not_depend_on_the_order_given() {
    let list = vec![scored(0, 0.3), scored(1, 0.3), scored(2, 0.8), scored(3, -0.2), scored(4, 0.3)];
    let expected = rank(&list, 3);
    assert_eq!(ids(&expected), vec![2, 0, 1]);
    let mut rotated = list.clone();
    for _ in 0..list.len() {
        rotated.rotate_left(1);
        assert_eq!(rank(&rotated, 3), expected);
        let mut reversed = rotated.clone();
        reversed.reverse();
        assert_eq!(rank(&reversed, 3), expected);
    }
}

#[test]
fn ranking_twice_gives_the_same() {
    let list = vec![scored(4, 0.5), scored(2, 0.5), scored(8, 0.1)];
    assert_eq!(rank(&list, 5), rank(&list, 5));
}

#[test]
fn precedes_is_the_order_of_the_ranking() {
    assert!(precedes(&scored(1, 0.9), &scored(0, 0.1)));
    assert!(!precedes(&scored(0, 0.1), &scored(1, 0.9)));
    assert!(precedes(&scored(0, 0.5), &scored(1, 0.5)));
    assert!(!precedes(&scored(1, 0.5), &scored(0, 0.5)));
    assert!(precedes(&scored(1, 0.5), &scored(1, 0.5)));
}
