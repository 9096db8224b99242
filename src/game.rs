use crate::player::{fresh_player, Player};
use crate::provider::LehmerProvider;
use vstd::prelude::*;

verus! {

/// Rounds of the opening deal in which each player draws once.
pub const OPENING_ROUNDS: usize = 6;

/// A match between two players.
pub struct Game {
    pub player_1: Player,
    pub player_2: Player,
    /// Rounds begun so far.
    pub turn: usize,
}

/// A new match between players of magnitudes `p1` and `p2`.
pub open spec fn fresh_game(p1: usize, p2: usize) -> Game {
    Game { player_1: fresh_player(p1), player_2: fresh_player(p2), turn: 0 }
}

/// The game and generator state after `k` opening rounds (player 1 draws, then player 2)
/// from game `g` and generator state `x`.
pub open spec fn opening_rounds(g: Game, x: int, k: nat) -> (Game, int)
    decreases k,
{
    if k == 0 {
        (g, x)
    } else {
        let (g0, x0) = opening_rounds(g, x, (k - 1) as nat);
        let d1 = g0.player_1.draw_spec(x0);
        let d2 = g0.player_2.draw_spec(d1.1);
        (Game { player_1: d1.0, player_2: d2.0, ..g0 }, d2.1)
    }
}

/// The game and generator state after the opening: six rounds, then one more draw for
/// player 2.
pub open spec fn opening(g: Game, x: int) -> (Game, int) {
    let (g0, x0) = opening_rounds(g, x, 6);
    let d = g0.player_2.draw_spec(x0);
    (Game { player_2: d.0, ..g0 }, d.1)
}

/// One round from game `g` and generator state `x`: the round count goes up, player 1
/// takes a turn and, unless that ends the match, player 2 takes one. Gives the game and
/// generator state after it, and `Some(b)` when the match ended, `b` telling whether
/// player 1 won.
#[verifier::opaque]
pub open spec fn round_spec(g: Game, x: int) -> (Game, int, Option<bool>) {
    let g1 = Game { turn: (g.turn + 1) as usize, ..g };
    let t1 = g1.player_1.turn_spec(g1.player_2, x);
    match t1.3 {
        Some(b) => (Game { player_1: t1.0, player_2: t1.1, ..g1 }, t1.2, Some(b)),
        None => {
            let t2 = t1.1.turn_spec(t1.0, t1.2);
            let g2 = Game { player_1: t2.1, player_2: t2.0, ..g1 };
            match t2.3 {
                Some(b) => (g2, t2.2, Some(!b)),
                None => (g2, t2.2, None),
            }
        },
    }
}

/// Playing rounds from game `g` and generator state `x` until one ends the match: the
/// game and generator state at the end, and whether player 1 won.
#[verifier::opaque]
pub open spec fn play(g: Game, x: int) -> (Game, int, bool)
    decreases g.player_1.deck_total() + g.player_2.deck_total(),
    via lemma_play_decreases
{
    let r = round_spec(g, x);
    match r.2 {
        Some(b) => (r.0, r.1, b),
        None => play(r.0, r.1),
    }
}

/// A round that does not end the match took one card from each deck and counted one
/// more round.
pub proof fn lemma_round_draws(g: Game, x: int)
    requires
        g.turn < usize::MAX,
    ensures
        ({
            let r = round_spec(g, x);
            r.2 is None ==> {
                &&& r.0.player_1.deck_total() == g.player_1.deck_total() - 1
                &&& r.0.player_2.deck_total() == g.player_2.deck_total() - 1
                &&& r.0.turn == g.turn + 1
            }
        }),
{
    reveal(round_spec);
    let g1 = Game { turn: (g.turn + 1) as usize, ..g };
    lemma_turn_draws(g1.player_1, g1.player_2, x);
    let t1 = g1.player_1.turn_spec(g1.player_2, x);
    lemma_turn_draws(t1.1, t1.0, t1.2);
}

/// One step of `play`: a round, then the rest unless the round ended the match.
pub proof fn lemma_play_unfold(g: Game, x: int)
    ensures
        ({
            let r = round_spec(g, x);
            play(g, x) == match r.2 {
                Some(b) => (r.0, r.1, b),
                None => play(r.0, r.1),
            }
        }),
{
    reveal(play);
}

#[via_fn]
proof fn lemma_play_decreases(g: Game, x: int) {
    reveal(round_spec);
    let r = round_spec(g, x);
    if r.2 is None {
        let g1 = Game { turn: (g.turn + 1) as usize, ..g };
        lemma_turn_draws(g1.player_1, g1.player_2, x);
        let t1 = g1.player_1.turn_spec(g1.player_2, x);
        lemma_turn_draws(t1.1, t1.0, t1.2);
    }
}

/// A turn that does not end the match took one card from the deck of the player whose
/// turn it was, and left the opponent's deck alone.
pub proof fn lemma_turn_draws(me: Player, opp: Player, x: int)
    ensures
        ({
            let t = me.turn_spec(opp, x);
            t.3 is None ==> t.0.deck_total() == me.deck_total() - 1 && t.1.deck_total()
                == opp.deck_total()
        }),
{
    let u = me.untapped();
    if u.deck_total() > 0 {
        let s = crate::provider::lehmer_next(x);
        assert(0 <= s < crate::provider::modulus());
        if u.deck_lands == 0 {
            assert(!crate::player::is_land_sample(s, u.deck_creatures as int, 0));
        }
        if u.deck_creatures == 0 {
            assert(crate::player::is_land_sample(s, 0, u.deck_lands as int)) by (nonlinear_arith)
                requires
                    0 <= s < 2147483647,
                    u.deck_lands > 0,
            ;
        }
    }
}

/// A whole match from game `g` and generator state `x`: the opening, then play.
pub open spec fn match_spec(g: Game, x: int) -> (Game, int, bool) {
    let (g0, x0) = opening(g, x);
    play(g0, x0)
}

impl Game {
    pub open spec fn wf(self) -> bool {
        self.player_1.wf() && self.player_2.wf()
    }

    /// A new match between players of magnitudes `p1_magnitude` and `p2_magnitude`.
    pub fn new(p1_magnitude: usize, p2_magnitude: usize) -> (r: Game)
        ensures
            r == fresh_game(p1_magnitude, p2_magnitude),
            r.wf(),
    {
        Game { player_1: Player::new(p1_magnitude), player_2: Player::new(p2_magnitude), turn: 0 }
    }

    /// Returns both players and the round count to the state of a new match.
    pub fn reset(&mut self)
        ensures
            *final(self) == fresh_game(old(self).player_1.magnitude, old(self).player_2.magnitude),
            final(self).wf(),
    {
        self.player_1.reset();
        self.player_2.reset();
        self.turn = 0;
    }

    /// The opening: six rounds in which player 1 and then player 2 draw, then one more
    /// draw for player 2. What the draws give is not checked.
    fn deal(&mut self, p: &mut LehmerProvider)
        requires
            old(self).wf(),
            old(p).wf(),
        ensures
            final(self).wf(),
            final(p).wf(),
            final(self).turn == old(self).turn,
            (*final(self), final(p).state()) == opening(*old(self), old(p).state()),
            final(self).player_1.magnitude == old(self).player_1.magnitude,
            final(self).player_2.magnitude == old(self).player_2.magnitude,
    {
        let ghost g_start = *self;
        let ghost x_start = p.state();
        let mut i: usize = 0;
        while i < OPENING_ROUNDS
            invariant
                i <= 6,
                self.wf(),
                p.wf(),
                self.turn == g_start.turn,
                self.player_1.magnitude == g_start.player_1.magnitude,
                self.player_2.magnitude == g_start.player_2.magnitude,
                (*self, p.state()) == opening_rounds(g_start, x_start, i as nat),
            decreases 6 - i,
        {
            let _ = self.player_1.draw(p);
            let _ = self.player_2.draw(p);
            i = i + 1;
        }
        let _ = self.player_2.draw(p);
    }

    /// Plays one round: the round count goes up, player 1 takes a turn and, unless that
    /// ends the match, player 2 takes one. Returns `Some(b)` when the match ended, `b`
    /// telling whether player 1 won.
    pub fn round(&mut self, p: &mut LehmerProvider) -> (r: Option<bool>)
        requires
            old(self).wf(),
            old(p).wf(),
            old(self).turn < usize::MAX,
        ensures
            final(self).wf(),
            final(p).wf(),
            (*final(self), final(p).state(), r) == round_spec(*old(self), old(p).state()),
            final(self).player_1.magnitude == old(self).player_1.magnitude,
            final(self).player_2.magnitude == old(self).player_2.magnitude,
    {
        proof {
            reveal(round_spec);
        }
        self.turn = self.turn + 1;
        match self.player_1.turn(&mut self.player_2, p) {
            Some(b) => {
                return Some(b);
            },
            None => {},
        }
        match self.player_2.turn(&mut self.player_1, p) {
            Some(b) => Some(!b),
            None => None,
        }
    }

    /// Plays the match to its end with samples from `p` and returns whether player 1 won,
    /// by defeating player 2 or by player 2 decking out.
    pub fn run(&mut self, p: &mut LehmerProvider) -> (r: bool)
        requires
            old(self).wf(),
            old(p).wf(),
            old(self).turn <= usize::MAX - 41,
        ensures
            final(self).wf(),
            final(p).wf(),
            (*final(self), final(p).state(), r) == match_spec(*old(self), old(p).state()),
            final(self).player_1.magnitude == old(self).player_1.magnitude,
            final(self).player_2.magnitude == old(self).player_2.magnitude,
    {
        let ghost g_start = *self;
        let ghost x_start = p.state();
        self.deal(p);
        let ghost g_open = *self;
        let ghost x_open = p.state();
        assert(match_spec(g_start, x_start) == play(g_open, x_open));
        loop
            invariant
                self.wf(),
                p.wf(),
                self.turn + self.player_1.deck_total() <= g_start.turn + 40,
                g_start.turn <= usize::MAX - 41,
                play(*self, p.state()) == play(g_open, x_open),
                match_spec(g_start, x_start) == play(g_open, x_open),
                g_start == *old(self),
                x_start == old(p).state(),
                self.player_1.magnitude == g_start.player_1.magnitude,
                self.player_2.magnitude == g_start.player_2.magnitude,
            decreases self.player_1.deck_total() + self.player_2.deck_total(),
        {
            let ghost g0 = *self;
            let ghost x0 = p.state();
            proof {
                lemma_round_draws(g0, x0);
                lemma_play_unfold(g0, x0);
            }
            match self.round(p) {
                Some(b) => {
                    return b;
                },
                None => {},
            }
        }
    }
}

} // verus!
