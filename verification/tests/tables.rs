use oxeylyzer_core::utility::get_fspeed_terms;
use oxeylyzer_core::utility::get_scissor_indices;
use oxeylyzer_core::utility::get_sfb_indices;
use oxeylyzer_core::utility::get_travels;
use oxeylyzer_core::utility::PosPair;
use oxeylyzer_core::utility::Travel;
use oxeylyzer_core::utility::I_TO_COL;

#[test]
fn same_finger_pairs_of_single_columns() {
    let sfb = get_sfb_indices();
    assert_eq!(sfb.len(), 48);
    let columns = [0, 1, 2, 7, 8, 9];
    for (g, c) in columns.iter().enumerate() {
        assert_eq!(sfb[3 * g], PosPair(*c, c + 10));
        assert_eq!(sfb[3 * g + 1], PosPair(*c, c + 20));
        assert_eq!(sfb[3 * g + 2], PosPair(c + 10, c + 20));
    }
}

#[test]
fn same_finger_pairs_of_index_fingers() {
    let sfb = get_sfb_indices();
    let left = [
        PosPair(3, 13),
        PosPair(3, 23),
        PosPair(3, 4),
        PosPair(3, 14),
        PosPair(3, 24),
        PosPair(13, 23),
        PosPair(13, 4),
        PosPair(13, 14),
        PosPair(13, 24),
        PosPair(23, 4),
        PosPair(23, 14),
        PosPair(23, 24),
        PosPair(4, 14),
        PosPair(4, 24),
        PosPair(14, 24),
    ];
    for k in 0..15 {
        assert_eq!(sfb[18 + k], left[k]);
        assert_eq!(sfb[33 + k], PosPair(left[k].0 + 2, left[k].1 + 2));
    }
}

#[test]
fn same_finger_pairs_are_the_pairs_within_a_column() {
    let sfb = get_sfb_indices();
    for pair in sfb.iter() {
        assert_ne!(pair.0, pair.1);
        assert_eq!(I_TO_COL[pair.0], I_TO_COL[pair.1]);
    }
    for a in 0..30 {
        for b in (a + 1)..30 {
            let hits = sfb
                .iter()
                .filter(|pair| **pair == PosPair(a, b) || **pair == PosPair(b, a))
                .count();
            assert_eq!(hits, if I_TO_COL[a] == I_TO_COL[b] { 1 } else { 0 });
        }
    }
}

#[test]
fn travels_of_single_columns() {
    let travels = get_travels();
    assert_eq!(travels.len(), 48);
    let weights = [14, 36, 48, 48, 36, 14];
    for g in 0..6 {
        assert_eq!(travels[3 * g], Travel::Vertical { rows: 1, weight: weights[g] });
        assert_eq!(travels[3 * g + 1], Travel::Vertical { rows: 2, weight: weights[g] });
        assert_eq!(travels[3 * g + 2], Travel::Vertical { rows: 1, weight: weights[g] });
    }
}

#[test]
fn travels_of_index_fingers() {
    let travels = get_travels();
    let hand = [
        (0, -1),
        (0, -2),
        (-1, 0),
        (-1, -1),
        (-1, -2),
        (0, -1),
        (-1, 1),
        (-1, 0),
        (-1, -1),
        (-1, 2),
        (-1, 1),
        (-1, 0),
        (0, -1),
        (0, -2),
        (0, -1),
    ];
    for k in 0..15 {
        let (dx, dy) = hand[k];
        assert_eq!(travels[18 + k], Travel::Lateral { dx, dy });
        assert_eq!(travels[33 + k], Travel::Lateral { dx, dy });
    }
}

#[test]
fn travels_match_the_pairs() {
    let sfb = get_sfb_indices();
    let travels = get_travels();
    for k in 0..48 {
        let PosPair(a, b) = sfb[k];
        match travels[k] {
            Travel::Vertical { rows, weight } => {
                assert!(k < 18);
                assert_eq!(a % 10, b % 10);
                assert_eq!(rows as usize, b / 10 - a / 10);
                let place = a % 10;
                let expected = [14, 36, 48, 0, 0, 0, 0, 48, 36, 14][place];
                assert_eq!(weight, expected);
            }
            Travel::Lateral { dx, dy } => {
                assert!(k >= 18);
                assert_eq!(dx, (a % 10) as i32 - (b % 10) as i32);
                assert_eq!(dy, (a / 10) as i32 - (b / 10) as i32);
            }
        }
    }
}

#[test]
fn each_pair_stands_with_its_travel() {
    let terms = get_fspeed_terms();
    let sfb = get_sfb_indices();
    let travels = get_travels();
    assert_eq!(terms.len(), 48);
    for k in 0..48 {
        assert_eq!(terms[k], (sfb[k], travels[k]));
    }
    assert_eq!(terms[0], (PosPair(0, 10), Travel::Vertical { rows: 1, weight: 14 }));
    assert_eq!(terms[7], (PosPair(2, 22), Travel::Vertical { rows: 2, weight: 48 }));
    assert_eq!(terms[24], (PosPair(13, 4), Travel::Lateral { dx: -1, dy: 1 }));
    assert_eq!(terms[47], (PosPair(16, 26), Travel::Lateral { dx: 0, dy: -1 }));
}

#[test]
fn distance_of_a_lateral_stretch() {
    let travels = get_travels();
    let lateral_multiplier: f64 = 1.4;
    match travels[24] {
        Travel::Lateral { dx, dy } => {
            assert_eq!((dx, dy), (-1, 1));
            let distance = ((dx as f64).powi(2) * lateral_multiplier + (dy as f64).powi(2)).powf(0.65);
            assert_eq!(distance, (2.4f64).powf(0.65));
        }
        Travel::Vertical { .. } => panic!("entry 24 belongs to an index finger"),
    }
    match travels[1] {
        Travel::Vertical { rows, weight } => {
            let distance = (rows as f64).powi(2).powf(0.65) * (5.5 / (weight as f64 / 10.0));
            assert_eq!(distance, (4.0f64).powf(0.65) * (5.5 / 1.4));
        }
        Travel::Lateral { .. } => panic!("entry 1 belongs to a single column"),
    }
}

#[test]
fn scissor_pairs_are_the_fixed_list() {
    let scissors = get_scissor_indices();
    assert_eq!(
        scissors,
        [
            PosPair(0, 11),
            PosPair(9, 18),
            PosPair(10, 21),
            PosPair(19, 28),
            PosPair(2, 24),
            PosPair(22, 4),
            PosPair(5, 27),
            PosPair(0, 21),
            PosPair(1, 20),
            PosPair(1, 22),
            PosPair(2, 21),
            PosPair(3, 22),
            PosPair(6, 27),
            PosPair(7, 28),
            PosPair(8, 27),
            PosPair(8, 29),
            PosPair(9, 28),
        ]
    );
}

#[test]
fn scissor_pairs_hold_the_flagged_positions() {
    let scissors = get_scissor_indices();
    for pair in scissors.iter() {
        assert!(pair.affects_scissor());
        assert!(PosPair(pair.0, pair.0).affects_scissor());
        assert!(PosPair(pair.1, pair.1).affects_scissor());
    }
    for pos in 0..30 {
        let held = scissors.iter().any(|pair| pair.0 == pos || pair.1 == pos);
        assert_eq!(PosPair(pos, pos).affects_scissor(), held);
    }
}
