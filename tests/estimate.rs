use duel_sim::game::Game;
use duel_sim::interval::{generate_interval, should_continue_interval, Estimate};
use duel_sim::provider::LehmerProvider;

fn point(e: Estimate) -> f64 {
    e.wins as f64 / e.trials as f64
}

#[test]
fn match_is_reproducible() {
    let mut a = LehmerProvider::new(42);
    let mut b = LehmerProvider::new(42);
    let mut g = Game::new(3, 4);
    let mut h = Game::new(3, 4);
    for _ in 0..50 {
        g.reset();
        h.reset();
        assert_eq!(g.run(&mut a), h.run(&mut b));
        assert_eq!(g.turn, h.turn);
        assert_eq!(a._see_state(), b._see_state());
    }
}

#[test]
fn match_ends_within_the_decks() {
    let mut p = LehmerProvider::new(9);
    let mut g = Game::new(20, 20);
    for _ in 0..50 {
        g.reset();
        g.run(&mut p);
        assert!(g.turn >= 1 && g.turn <= 34);
    }
}

#[test]
fn reset_clears_the_match() {
    let mut p = LehmerProvider::new(3);
    let mut g = Game::new(2, 5);
    g.run(&mut p);
    g.reset();
    assert_eq!(g.turn, 0);
    assert_eq!(g.player_1.magnitude, 2);
    assert_eq!(g.player_2.magnitude, 5);
    assert_eq!(g.player_1.count_deck(), 40);
    assert_eq!(g.player_2.health, 20);
}

#[test]
fn never_stops_before_forty_trials() {
    for n in 0..40u64 {
        assert!(should_continue_interval(n, 0, 1000, 1));
        assert!(should_continue_interval(n, n / 2, 1000, 1));
    }
}

#[test]
fn uniform_outcomes_stop_at_exactly_forty() {
    assert!(should_continue_interval(39, 39, 1, 100000));
    assert!(!should_continue_interval(40, 40, 1, 100000));
    assert!(!should_continue_interval(40, 0, 1, 100000));
    assert!(!should_continue_interval(40, 0, 0, 1));
}

#[test]
fn stopping_rule_values() {
    // w = 0.1, n = 40, s = 20: 2401 * 400 * 100 > 625 * 39 * 1600
    assert!(should_continue_interval(40, 20, 1, 10));
    // w = 0.1, n = 100, s = 50: 2401 * 2500 * 100 <= 625 * 99 * 10000
    assert!(!should_continue_interval(100, 50, 1, 10));
    // w = 0.1, n = 97, s = 48: 2401 * 2352 * 100 > 625 * 96 * 9409
    assert!(should_continue_interval(97, 48, 1, 10));
    // w = 0.1, n = 98, s = 49: 2401 * 2401 * 100 <= 625 * 97 * 9604
    assert!(!should_continue_interval(98, 49, 1, 10));
    // a wide half-width stops at forty
    assert!(!should_continue_interval(40, 20, 1, 1));
}

#[test]
fn symmetric_low_magnitude_matchup_is_even() {
    let mut p = LehmerProvider::new(1);
    let e = generate_interval(1, 1, 1, 10, &mut p);
    assert!(e.trials >= 40);
    let x = point(e);
    assert!(x >= 0.4 && x <= 0.6);
}

#[test]
fn symmetric_matchup_converges_to_half() {
    // w = 0.02, seed 1: some symmetric matchup lies within 0.02 of one half
    let mut close = Vec::new();
    for x in 1..=20usize {
        let mut p = LehmerProvider::new(1);
        let e = generate_interval(x, x, 1, 50, &mut p);
        let est = point(e);
        if est >= 0.48 && est <= 0.52 {
            close.push(x);
        }
    }
    assert!(close.contains(&9));
}

#[test]
fn estimate_stops_where_the_rule_says() {
    let mut p = LehmerProvider::new(77);
    let e = generate_interval(4, 9, 1, 20, &mut p);
    assert!(e.wins <= e.trials);
    assert!(e.trials >= 40);
    assert!(!should_continue_interval(e.trials, e.wins, 1, 20));
}

#[test]
fn full_grid_has_four_hundred_estimates() {
    let mut p = LehmerProvider::new(1);
    let mut rows: Vec<Vec<f64>> = Vec::new();
    for p1 in 1..=20usize {
        let mut row = Vec::new();
        for p2 in 1..=20usize {
            let e = generate_interval(p1, p2, 1, 10, &mut p);
            assert!(e.trials >= 40);
            row.push(point(e));
        }
        rows.push(row);
    }
    assert_eq!(rows.len(), 20);
    for row in &rows {
        assert_eq!(row.len(), 20);
        for x in row {
            assert!(*x >= 0.0 && *x <= 1.0);
            assert_eq!(format!("{:.4}", x).split('.').nth(1).map(|f| f.len()), Some(4));
        }
    }
    assert!(rows[0][0] >= 0.4 && rows[0][0] <= 0.6);
}
