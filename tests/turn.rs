use riskydice::dice::DiceSet;
use riskydice::scoring::ScoreType;
use riskydice::turn::{leader, would_win, Player, Turn, TARGET};

fn turn_with(faces: [u32; 6]) -> Turn {
    Turn::with_throw(DiceSet::from_faces(faces).unwrap())
}

fn find(turn: &Turn, stype: ScoreType, score: u32) -> usize {
    turn.options()
        .iter()
        .position(|o| o.stype == stype && o.score == score)
        .expect("option offered")
}

#[test]
fn turn_ending_in_bust_loses_its_points() {
    let player = Player::new("Jim".to_string());
    let mut turn = turn_with([1, 1, 1, 5, 5, 2]);
    assert_eq!(turn.points(), 0);
    assert!(!turn.can_reroll());
    let i = find(&turn, ScoreType::OfAKind, 1000);
    assert!(!turn.select(i, &player));
    assert_eq!(turn.points(), 1000);
    assert_eq!(turn.dice().values(), vec![5, 5, 2]);
    assert!(turn.can_reroll());
    let i = find(&turn, ScoreType::Fives, 100);
    assert!(!turn.select(i, &player));
    assert_eq!(turn.points(), 1100);
    assert_eq!(turn.dice().values(), vec![2]);
    assert!(turn.options().is_empty());
    assert!(turn.is_bust());
    assert_eq!(player.score, 0);
}

#[test]
fn win_is_reached_before_banking() {
    let mut player = Player::new("Ann".to_string());
    assert!(!player.bank(3600));
    let mut turn = turn_with([2, 3, 4, 5, 1, 3]);
    let i = find(&turn, ScoreType::InARow, 500);
    assert!(turn.select(i, &player));
    assert_eq!(player.score, 3600);
    assert!(player.would_win(turn.points()));
}

#[test]
fn exhausted_dice_are_thrown_again() {
    let player = Player::new("Joe".to_string());
    let mut turn = turn_with([2, 3, 4, 5, 1, 6]);
    let i = find(&turn, ScoreType::Ones, 100);
    turn.select(i, &player);
    assert!(turn.can_reroll());
    assert_eq!(turn.dice().occupied_count(), 5);
    let mut turn = turn_with([2, 3, 4, 5, 1, 6]);
    let i = find(&turn, ScoreType::InARow, 1500);
    assert!(!turn.select(i, &player));
    assert_eq!(turn.points(), 1500);
    assert_eq!(turn.dice().occupied_count(), 6);
    assert!(!turn.can_reroll());
}

#[test]
fn exhaustion_across_throws_keeps_points() {
    let player = Player::new("Joe".to_string());
    let mut turn = turn_with([1, 1, 1, 5, 5, 5]);
    let i = find(&turn, ScoreType::OfAKind, 1000);
    turn.select(i, &player);
    let i = find(&turn, ScoreType::Fives, 150);
    turn.select(i, &player);
    assert_eq!(turn.points(), 1150);
    assert_eq!(turn.dice().occupied_count(), 6);
    assert!(!turn.can_reroll());
}

#[test]
fn reroll_keeps_points_and_dice_count() {
    let player = Player::new("Kim".to_string());
    let mut turn = turn_with([1, 2, 3, 4, 6, 6]);
    let i = find(&turn, ScoreType::Ones, 100);
    turn.select(i, &player);
    assert!(turn.can_reroll());
    turn.reroll();
    assert!(!turn.can_reroll());
    assert_eq!(turn.points(), 100);
    assert_eq!(turn.dice().occupied_count(), 5);
    assert_eq!(turn.dice().face(0), None);
}

#[test]
fn banking_adds_turn_points() {
    let mut player = Player::new("Lee".to_string());
    let mut turn = turn_with([5, 2, 3, 3, 4, 6]);
    let i = find(&turn, ScoreType::Fives, 50);
    turn.select(i, &player);
    assert!(!turn.bank(&mut player));
    assert_eq!(player.score, 50);
    assert_eq!(player.name, "Lee");
    let mut player = Player { name: "Max".to_string(), score: 3950 };
    let turn = turn_with([5, 2, 3, 3, 4, 6]);
    assert!(turn.bank(&mut player) == false);
    assert!(player.bank(50));
    assert_eq!(player.score, TARGET);
}

#[test]
fn target_is_reached_at_four_thousand() {
    assert!(would_win(3600, 400));
    assert!(!would_win(3600, 399));
    assert!(would_win(0, 4000));
    assert!(!would_win(0, 0));
    assert!(would_win(u64::MAX, u64::MAX));
}

#[test]
fn fresh_turn_has_six_dice() {
    let turn = Turn::start();
    assert_eq!(turn.dice().occupied_count(), 6);
    assert_eq!(turn.points(), 0);
    assert!(!turn.can_reroll());
}

#[test]
fn leader_is_last_of_highest() {
    let players = vec![
        Player { name: "a".to_string(), score: 300 },
        Player { name: "b".to_string(), score: 700 },
        Player { name: "c".to_string(), score: 700 },
        Player { name: "d".to_string(), score: 100 },
    ];
    assert_eq!(leader(&players), 2);
    assert_eq!(leader(&players[..1].iter().map(|p| Player { name: p.name.clone(), score: p.score }).collect()), 0);
}

#[test]
fn exhaustion_throws_the_given_refill() {
    let player = Player::new("Sam".to_string());
    let mut turn = turn_with([2, 3, 4, 5, 1, 6]);
    let i = find(&turn, ScoreType::InARow, 1500);
    assert!(!turn.select_with(i, &player, [2, 3, 4, 6, 6, 6]));
    assert_eq!(turn.points(), 1500);
    assert_eq!(turn.dice().values(), vec![2, 3, 4, 6, 6, 6]);
    assert!(!turn.can_reroll());
    let i = find(&turn, ScoreType::OfAKind, 600);
    assert!(!turn.select_with(i, &player, [1, 1, 1, 1, 1, 1]));
    assert_eq!(turn.points(), 2100);
    assert_eq!(turn.dice().values(), vec![2, 3, 4]);
    assert!(turn.can_reroll());
    assert!(turn.is_bust() == turn.options().is_empty());
}

#[test]
fn reroll_with_gives_remaining_dice_the_draws() {
    let player = Player::new("Pat".to_string());
    let mut turn = turn_with([1, 2, 3, 4, 6, 6]);
    let i = find(&turn, ScoreType::Ones, 100);
    turn.select_with(i, &player, [1, 1, 1, 1, 1, 1]);
    turn.reroll_with(&vec![5, 5, 5, 2, 2]);
    assert_eq!(turn.dice().face(0), None);
    assert_eq!(turn.dice().values(), vec![5, 5, 5, 2, 2]);
    assert_eq!(turn.points(), 100);
    assert!(!turn.can_reroll());
    let scores: Vec<u32> = turn.options().iter().map(|o| o.score).collect();
    assert_eq!(scores, vec![50, 100, 150]);
}
