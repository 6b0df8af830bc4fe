use dice_notation::{Dice, BOOST, CHALLENGE, DIFFICULTY, FORCE, PROFICIENCY, SETBACK};

#[test]
fn test_d20() {
    let dice = Dice::from("2d6").unwrap();

    for _ in 0..100 {
        assert!((2..=12).contains(&dice.roll().parse::<i32>().unwrap()))
    }
}

#[test]
fn test_fd() {
    let dice = Dice::from("fd").unwrap();

    for _ in 0..100 {
        assert!(FORCE.contains(&dice.roll().as_str()))
    }
}

#[test]
fn test_bd() {
    let dice = Dice::from("bd").unwrap();

    for _ in 0..100 {
        assert!(BOOST.contains(&dice.roll().as_str()))
    }
}

#[test]
fn test_sb() {
    let dice = Dice::from("sb").unwrap();

    for _ in 0..100 {
        assert!(SETBACK.contains(&dice.roll().as_str()))
    }
}

#[test]
fn test_dd() {
    let dice = Dice::from("dd").unwrap();

    for _ in 0..100 {
        assert!(DIFFICULTY.contains(&dice.roll().as_str()))
    }
}

#[test]
fn test_pd() {
    let dice = Dice::from("pd").unwrap();

    for _ in 0..100 {
        assert!(PROFICIENCY.contains(&dice.roll().as_str()))
    }
}

#[test]
fn test_cd() {
    let dice = Dice::from("cd").unwrap();

    for _ in 0..100 {
        assert!(CHALLENGE.contains(&dice.roll().as_str()))
    }
}

#[test]
#[should_panic]
fn test_error() {
    let _dice = Dice::from("4000d4000").unwrap();
}
