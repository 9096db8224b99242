use duel_sim::player::Player;
use duel_sim::provider::{LehmerProvider, M_VAL};

fn player_with(magnitude: usize, active: usize, sick: usize, health: usize) -> Player {
    let mut p = Player::new(magnitude);
    p.active = active;
    p.sick = sick;
    p.deck_creatures = 20 - active - sick;
    p.health = health;
    p
}

// Test that we can get accurate counts.
#[test]
fn test_counts() {
    // 1073741824 / M_VAL is the sample 0.5
    let mut test_player = Player::new(2);
    assert_eq!(0, test_player._count_hand());
    assert_eq!(40, test_player.count_deck());
    test_player.draw_with(1073741824);
    assert_eq!(1, test_player._count_hand());
    assert_eq!(39, test_player.count_deck());
}

#[test]
fn draw_from_even_deck_splits_at_half() {
    let mut p = Player::new(1);
    assert_eq!(p.draw_with(1073741823), Some(true));
    assert_eq!((p.hand_lands, p.deck_lands, p.hand_creatures, p.deck_creatures), (1, 19, 0, 20));
    let mut q = Player::new(1);
    assert_eq!(q.draw_with(1073741824), Some(false));
    assert_eq!((q.hand_lands, q.deck_lands, q.hand_creatures, q.deck_creatures), (0, 20, 1, 19));
}

#[test]
fn draw_threshold_follows_land_share() {
    // 1 creature and 3 lands: a land exactly when s * 4 < 3 * M
    let small_deck = || {
        let mut p = Player::new(1);
        p.deck_creatures = 1;
        p.deck_lands = 3;
        p.active = 19;
        p.land = 17;
        p
    };
    let edge = (3 * M_VAL) / 4;
    let mut a = small_deck();
    assert_eq!(a.draw_with(edge), Some(true));
    let mut b = small_deck();
    assert_eq!(b.draw_with(edge + 1), Some(false));
}

#[test]
fn draw_with_only_lands_or_only_creatures() {
    let mut p = Player::new(1);
    p.deck_creatures = 0;
    p.active = 20;
    assert_eq!(p.draw_with(M_VAL - 1), Some(true));
    let mut q = Player::new(1);
    q.deck_lands = 0;
    q.land = 20;
    assert_eq!(q.draw_with(0), Some(false));
}

#[test]
fn draw_from_empty_deck_changes_nothing() {
    let mut p = Player::new(3);
    p.deck_creatures = 0;
    p.deck_lands = 0;
    p.hand_creatures = 20;
    p.hand_lands = 20;
    let before = (p.hand_creatures, p.hand_lands, p.health, p.land);
    assert_eq!(p.draw_with(5), None);
    assert_eq!((p.hand_creatures, p.hand_lands, p.health, p.land), before);
    let mut prov = LehmerProvider::new(7);
    assert_eq!(p.draw(&mut prov), None);
    assert_eq!(prov._see_state(), 7);
}

#[test]
fn draw_takes_one_sample() {
    let mut p = Player::new(1);
    let mut prov = LehmerProvider::new(1);
    // the first sample is 48271 / M, below one half: a land
    assert_eq!(p.draw(&mut prov), Some(true));
    assert_eq!(prov._see_state(), 48271);
}

#[test]
fn take_damage_never_goes_below_zero() {
    let mut p = Player::new(1);
    assert_eq!(p.take_damage(5), 15);
    assert_eq!(p.health, 15);
    assert_eq!(p.take_damage(15), 0);
    assert_eq!(p.health, 0);
    let mut q = Player::new(1);
    assert_eq!(q.take_damage(21), 0);
    assert_eq!(q.health, 0);
    let mut r = Player::new(1);
    assert_eq!(r.take_damage(usize::MAX), 0);
}

#[test]
fn turn_defeats_opponent_with_exact_damage() {
    // two active and one sick creature of power 3 deal 9
    let mut me = player_with(3, 2, 1, 20);
    let mut opp = player_with(1, 0, 0, 9);
    let mut prov = LehmerProvider::new(1);
    assert_eq!(me.turn(&mut opp, &mut prov), Some(true));
    assert_eq!(opp.health, 0);
    assert_eq!((me.active, me.sick), (3, 0));
}

#[test]
fn turn_leaves_opponent_alive_below_damage() {
    let mut me = player_with(3, 2, 1, 20);
    let mut opp = player_with(1, 0, 0, 10);
    let mut prov = LehmerProvider::new(1);
    assert_eq!(me.turn(&mut opp, &mut prov), None);
    assert_eq!(opp.health, 1);
}

#[test]
fn turn_with_empty_deck_loses() {
    let mut me = Player::new(2);
    me.hand_creatures = 20;
    me.deck_creatures = 0;
    me.hand_lands = 20;
    me.deck_lands = 0;
    let mut opp = Player::new(2);
    let mut prov = LehmerProvider::new(1);
    assert_eq!(me.turn(&mut opp, &mut prov), Some(false));
    assert_eq!(opp.health, 20);
    assert_eq!(prov._see_state(), 1);
}

#[test]
fn turn_plays_one_land_and_casts_what_mana_allows() {
    // 6 lands out, 2 in hand, magnitude 3, 5 creatures in hand
    let mut me = Player::new(3);
    me.land = 6;
    me.hand_lands = 2;
    me.deck_lands = 12;
    me.hand_creatures = 5;
    me.deck_creatures = 15;
    let mut opp = Player::new(1);
    let mut prov = LehmerProvider::new(1);
    // first sample 48271 / M: a land (12 of 27)
    assert_eq!(me.turn(&mut opp, &mut prov), None);
    assert_eq!(me.land, 7);
    assert_eq!(me.hand_lands, 2);
    assert_eq!(me.deck_lands, 11);
    // 7 mana casts two creatures of cost 3
    assert_eq!(me.sick, 2);
    assert_eq!(me.hand_creatures, 3);
    assert_eq!(opp.health, 20);
}

#[test]
fn reset_restores_a_new_player() {
    let mut p = player_with(4, 3, 2, 7);
    p.land = 5;
    p.reset();
    assert_eq!(p.magnitude, 4);
    assert_eq!((p.active, p.sick, p.health, p.land), (0, 0, 20, 0));
    assert_eq!((p.hand_creatures, p.hand_lands), (0, 0));
    assert_eq!((p.deck_creatures, p.deck_lands), (20, 20));
}
