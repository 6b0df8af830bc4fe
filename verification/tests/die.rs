use dice_notation::{Dice, DieDescriptor, BOOST, CHALLENGE, DIFFICULTY, FORCE, PROFICIENCY, SETBACK};
use std::collections::HashMap;

const NARRATIVE: [DieDescriptor; 6] = [
    DieDescriptor::Boost,
    DieDescriptor::Setback,
    DieDescriptor::Difficulty,
    DieDescriptor::Proficiency,
    DieDescriptor::Challenge,
    DieDescriptor::Force,
];

fn table(die: DieDescriptor) -> Vec<&'static str> {
    (0..die.face_count()).map(|i| die.face(i).unwrap()).collect()
}

#[test]
fn the_tables_hold_their_faces_in_order() {
    assert_eq!(BOOST, ["▢", "▢", "✶", "✶℧", "℧℧", "℧"]);
    assert_eq!(SETBACK, ["▢", "▢", "▼", "▼", "⎔", "⎔"]);
    assert_eq!(DIFFICULTY, ["▢", "▼", "▼▼", "⎔", "⎔", "⎔", "⎔⎔", "▼⎔"]);
    assert_eq!(
        PROFICIENCY,
        ["▢", "✶", "✶", "✶✶", "✶✶", "℧", "⎈", "℧℧", "℧℧", "✶℧", "✶℧", "✶℧"]
    );
    assert_eq!(
        CHALLENGE,
        ["▼", "▼", "▼▼", "▼▼", "⎔", "⎔", "▼⎔", "▼⎔", "⎔⎔", "⎔⎔", "⎊", "▢"]
    );
    assert_eq!(
        FORCE,
        ["●", "●", "●", "●", "●", "●", "●●", "○", "○", "○○", "○○", "○○"]
    );
}

#[test]
fn the_glyphs_are_the_code_points_they_look_like() {
    assert_eq!(BOOST[0], "\u{25a2}");
    assert_eq!(BOOST[3], "\u{2736}\u{2127}");
    assert_eq!(SETBACK[2], "\u{25bc}");
    assert_eq!(SETBACK[4], "\u{2394}");
    assert_eq!(PROFICIENCY[6], "\u{2388}");
    assert_eq!(CHALLENGE[10], "\u{238a}");
    assert_eq!(FORCE[0], "\u{25cf}");
    assert_eq!(FORCE[6], "\u{25cf}\u{25cf}");
    assert_eq!(FORCE[7], "\u{25cb}");
}

#[test]
fn each_die_has_its_table() {
    assert_eq!(table(DieDescriptor::Boost), BOOST);
    assert_eq!(table(DieDescriptor::Setback), SETBACK);
    assert_eq!(table(DieDescriptor::Difficulty), DIFFICULTY);
    assert_eq!(table(DieDescriptor::Proficiency), PROFICIENCY);
    assert_eq!(table(DieDescriptor::Challenge), CHALLENGE);
    assert_eq!(table(DieDescriptor::Force), FORCE);
}

#[test]
fn table_hands_out_the_table_of_the_die() {
    assert_eq!(DieDescriptor::Boost.table(), BOOST);
    assert_eq!(DieDescriptor::Setback.table(), SETBACK);
    assert_eq!(DieDescriptor::Difficulty.table(), DIFFICULTY);
    assert_eq!(DieDescriptor::Proficiency.table(), PROFICIENCY);
    assert_eq!(DieDescriptor::Challenge.table(), CHALLENGE);
    assert_eq!(DieDescriptor::Force.table(), FORCE);
    assert!(DieDescriptor::Numeric { num: 2, dtype: 6 }.table().is_empty());
}

#[test]
fn a_blank_face_comes_up_on_two_of_the_six_faces_of_the_boost_die() {
    let blank = BOOST.iter().filter(|face| **face == "▢").count();
    assert_eq!(blank, 2);
    assert_eq!(BOOST.len(), 6);
}

#[test]
fn the_tables_have_six_eight_and_twelve_faces() {
    assert_eq!(DieDescriptor::Boost.face_count(), 6);
    assert_eq!(DieDescriptor::Setback.face_count(), 6);
    assert_eq!(DieDescriptor::Difficulty.face_count(), 8);
    assert_eq!(DieDescriptor::Proficiency.face_count(), 12);
    assert_eq!(DieDescriptor::Challenge.face_count(), 12);
    assert_eq!(DieDescriptor::Force.face_count(), 12);
}

#[test]
fn there_is_no_face_past_the_end_of_a_table() {
    for die in NARRATIVE {
        let n = die.face_count();
        assert!(die.face(n - 1).is_some());
        assert_eq!(die.face(n), None);
        assert_eq!(die.face(n + 1), None);
        assert_eq!(die.face(usize::MAX), None);
    }
}

#[test]
fn a_numeric_die_has_no_faces() {
    let die = DieDescriptor::Numeric { num: 2, dtype: 6 };
    assert_eq!(die.face_count(), 0);
    assert_eq!(die.face(0), None);
    assert_eq!(die.face(5), None);
}

#[test]
fn the_outcome_of_a_narrative_die_is_the_face_drawn() {
    assert_eq!(DieDescriptor::Boost.outcome(&[0]), Some("▢".to_string()));
    assert_eq!(DieDescriptor::Boost.outcome(&[3]), Some("✶℧".to_string()));
    assert_eq!(DieDescriptor::Boost.outcome(&[5]), Some("℧".to_string()));
    assert_eq!(DieDescriptor::Difficulty.outcome(&[7]), Some("▼⎔".to_string()));
    assert_eq!(DieDescriptor::Challenge.outcome(&[10]), Some("⎊".to_string()));
    assert_eq!(DieDescriptor::Force.outcome(&[6]), Some("●●".to_string()));
    for die in NARRATIVE {
        for i in 0..die.face_count() {
            assert_eq!(die.outcome(&[i as u16]), die.face(i).map(String::from));
        }
    }
}

#[test]
fn a_narrative_die_takes_one_draw_within_its_table() {
    for die in NARRATIVE {
        let n = die.face_count() as u16;
        assert_eq!(die.outcome(&[]), None);
        assert_eq!(die.outcome(&[0, 0]), None);
        assert_eq!(die.outcome(&[n]), None);
        assert_eq!(die.outcome(&[u16::MAX]), None);
    }
}

#[test]
fn the_outcome_of_a_numeric_die_is_the_sum_of_the_draws() {
    let die = DieDescriptor::Numeric { num: 2, dtype: 6 };
    assert_eq!(die.outcome(&[3, 4]), Some("7".to_string()));
    assert_eq!(die.outcome(&[1, 1]), Some("2".to_string()));
    assert_eq!(die.outcome(&[6, 6]), Some("12".to_string()));
    let die = DieDescriptor::Numeric { num: 5, dtype: 20 };
    assert_eq!(die.outcome(&[20, 1, 13, 7, 20]), Some("61".to_string()));
    let die = DieDescriptor::Numeric { num: 255, dtype: 255 };
    assert_eq!(die.outcome(&[255; 255]), Some("65025".to_string()));
    let die = DieDescriptor::Numeric { num: 65535, dtype: 65535 };
    assert_eq!(die.outcome(&vec![65535; 65535]), Some("4294836225".to_string()));
}

#[test]
fn a_numeric_die_takes_one_draw_for_each_die_within_its_sides() {
    let die = DieDescriptor::Numeric { num: 2, dtype: 6 };
    assert_eq!(die.outcome(&[]), None);
    assert_eq!(die.outcome(&[3]), None);
    assert_eq!(die.outcome(&[3, 4, 5]), None);
    assert_eq!(die.outcome(&[0, 4]), None);
    assert_eq!(die.outcome(&[3, 0]), None);
    assert_eq!(die.outcome(&[7, 4]), None);
    assert_eq!(die.outcome(&[3, 7]), None);
}

#[test]
fn no_dice_roll_zero() {
    let die = Dice::from("0d6").unwrap();
    assert_eq!(die.outcome(&[]), Some("0".to_string()));
    assert_eq!(die.outcome(&[1]), None);
    assert_eq!(die.draw(), Vec::<u16>::new());
    for _ in 0..20 {
        assert_eq!(die.roll(), "0");
    }
}

#[test]
fn dice_without_sides_show_zero() {
    let die = Dice::from("3d0").unwrap();
    assert_eq!(die.outcome(&[0, 0, 0]), Some("0".to_string()));
    assert_eq!(die.outcome(&[0, 1, 0]), None);
    assert_eq!(die.outcome(&[0, 0]), None);
    assert_eq!(die.draw(), vec![0, 0, 0]);
    for _ in 0..20 {
        assert_eq!(die.roll(), "0");
    }
    assert_eq!(Dice::from("0d0").unwrap().roll(), "0");
}

#[test]
fn dice_of_one_side_show_one() {
    let die = Dice::from("9d1").unwrap();
    assert_eq!(die.draw(), vec![1; 9]);
    assert_eq!(die.roll(), "9");
}

#[test]
fn a_numeric_die_draws_once_for_each_die() {
    for (num, dtype) in [(1u16, 6u16), (2, 6), (2, 20), (10, 4), (255, 255), (1000, 3)] {
        let die = DieDescriptor::Numeric { num, dtype };
        for _ in 0..20 {
            let draws = die.draw();
            assert_eq!(draws.len(), num as usize);
            assert!(draws.iter().all(|v| (1..=dtype).contains(v)));
            let sum: u32 = draws.iter().map(|v| *v as u32).sum();
            assert_eq!(die.outcome(&draws), Some(sum.to_string()));
        }
    }
}

#[test]
fn a_narrative_die_draws_a_place_in_its_table() {
    for die in NARRATIVE {
        for _ in 0..50 {
            let draws = die.draw();
            assert_eq!(draws.len(), 1);
            assert!((draws[0] as usize) < die.face_count());
        }
    }
}

#[test]
fn a_narrative_roll_is_a_face_of_the_table() {
    for die in NARRATIVE {
        let faces = table(die);
        for _ in 0..200 {
            assert!(faces.contains(&die.roll().as_str()));
        }
    }
}

#[test]
fn a_numeric_roll_reads_as_a_number_in_range() {
    for (num, dtype) in [(1u32, 1u32), (1, 6), (2, 6), (3, 8), (2, 20), (10, 10), (255, 255), (1, 255), (255, 1)] {
        let die = Dice::from(&format!("{num}d{dtype}")).unwrap();
        for _ in 0..100 {
            let rolled = die.roll();
            let sum: u32 = rolled.parse().unwrap();
            assert!(num <= sum && sum <= num * dtype, "{num}d{dtype} rolled {rolled}");
            assert_eq!(sum.to_string(), rolled);
        }
    }
}

#[test]
fn the_widest_die_rolls_without_overflow() {
    let die = Dice::from_with_limit("65535d65535", u16::MAX).unwrap();
    let sum: u64 = die.roll().parse().unwrap();
    assert!(65535 <= sum && sum <= 65535 * 65535);
}

#[test]
fn rolls_differ_from_one_another() {
    let die = Dice::from("1d6").unwrap();
    let mut seen = [false; 7];
    for _ in 0..2000 {
        let n: usize = die.roll().parse().unwrap();
        seen[n] = true;
    }
    assert_eq!(seen, [false, true, true, true, true, true, true]);
}

#[test]
fn every_face_of_a_table_comes_up() {
    for die in NARRATIVE {
        let mut seen = vec![false; die.face_count()];
        for _ in 0..2000 {
            let place = die.draw()[0] as usize;
            seen[place] = true;
        }
        assert!(seen.iter().all(|s| *s), "{die:?}");
    }
}

#[test]
fn faces_come_up_as_often_as_the_table_has_them() {
    let rolls = 24_000;
    for die in NARRATIVE {
        let faces = table(die);
        let mut counts: HashMap<String, usize> = HashMap::new();
        for _ in 0..rolls {
            *counts.entry(die.roll()).or_insert(0) += 1;
        }
        for (face, count) in &counts {
            let share = faces.iter().filter(|f| *f == face).count() as f64 / faces.len() as f64;
            let expected = share * rolls as f64;
            let spread = (rolls as f64 * share * (1.0 - share)).sqrt();
            assert!(
                (*count as f64 - expected).abs() <= 8.0 * spread,
                "{die:?}: {face} came up {count} times, about {expected} expected"
            );
        }
        let distinct = faces.iter().collect::<std::collections::HashSet<_>>().len();
        assert_eq!(counts.len(), distinct, "{die:?}");
    }
}

#[test]
fn the_sides_of_a_die_come_up_equally_often() {
    let rolls = 24_000;
    let die = Dice::from("1d6").unwrap();
    let mut counts = [0usize; 7];
    for _ in 0..rolls {
        counts[die.roll().parse::<usize>().unwrap()] += 1;
    }
    let expected = rolls as f64 / 6.0;
    let spread = (rolls as f64 * (1.0 / 6.0) * (5.0 / 6.0)).sqrt();
    assert_eq!(counts[0], 0);
    for side in 1..=6 {
        assert!(
            (counts[side] as f64 - expected).abs() <= 8.0 * spread,
            "{side} came up {} times, about {expected} expected",
            counts[side]
        );
    }
}

#[test]
fn the_sum_of_two_dice_is_most_often_seven() {
    let rolls = 36_000;
    let die = Dice::from("2d6").unwrap();
    let mut counts = [0usize; 13];
    for _ in 0..rolls {
        counts[die.roll().parse::<usize>().unwrap()] += 1;
    }
    for sum in 2..=12usize {
        let ways = 6 - (sum as i32 - 7).abs();
        let share = ways as f64 / 36.0;
        let expected = share * rolls as f64;
        let spread = (rolls as f64 * share * (1.0 - share)).sqrt();
        assert!(
            (counts[sum] as f64 - expected).abs() <= 8.0 * spread,
            "{sum} came up {} times, about {expected} expected",
            counts[sum]
        );
    }
    assert_eq!(counts[0] + counts[1], 0);
}

#[test]
fn a_descriptor_is_a_plain_value() {
    let die = Dice::from("2d6").unwrap();
    let copy = die;
    assert_eq!(die, copy);
    assert_eq!(die.clone(), DieDescriptor::Numeric { num: 2, dtype: 6 });
    assert_ne!(die, DieDescriptor::Numeric { num: 6, dtype: 2 });
    assert_ne!(DieDescriptor::Boost, DieDescriptor::Setback);
    assert_eq!(format!("{:?}", DieDescriptor::Force), "Force");
}
