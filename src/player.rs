use crate::provider::{lehmer_next, modulus, valid_state, LehmerProvider, M_VAL};
use vstd::arithmetic::div_mod::*;
use vstd::prelude::*;

verus! {

/// Cards of each kind in a fresh deck.
pub const CARDS_PER_KIND: usize = 20;

/// Health at the start of a game.
pub const START_HEALTH: usize = 20;

/// One contestant: the power of its creatures, its board, health, lands, hand and deck.
pub struct Player {
    /// Power of each creature, and mana needed to cast one.
    pub magnitude: usize,
    /// Creatures cast this turn, which cannot attack yet.
    pub sick: usize,
    /// Creatures able to attack.
    pub active: usize,
    pub health: usize,
    /// Lands on the battlefield.
    pub land: usize,
    pub hand_creatures: usize,
    pub hand_lands: usize,
    pub deck_creatures: usize,
    pub deck_lands: usize,
}

/// A sample with state `s` (standing for `s / m`) is below `lands / (creatures + lands)`.
pub open spec fn is_land_sample(s: int, creatures: int, lands: int) -> bool {
    s * (creatures + lands) < lands * modulus()
}

/// A player of magnitude `m` as a new match finds it.
pub open spec fn fresh_player(m: usize) -> Player {
    Player {
        magnitude: m,
        sick: 0,
        active: 0,
        health: 20,
        land: 0,
        hand_creatures: 0,
        hand_lands: 0,
        deck_creatures: 20,
        deck_lands: 20,
    }
}

/// Health left after `d` damage: never below 0.
pub open spec fn health_after(h: int, d: int) -> int {
    if d > h {
        0
    } else {
        h - d
    }
}

/// How many creatures a player with these resources casts in one main phase.
pub open spec fn cast_count(hand: int, land: int, magnitude: int) -> int {
    if magnitude == 0 || hand <= land / magnitude {
        hand
    } else {
        land / magnitude
    }
}

impl Player {
    /// Cards left in the deck.
    pub open spec fn deck_total(self) -> int {
        self.deck_creatures + self.deck_lands
    }

    /// Cards in the hand.
    pub open spec fn hand_total(self) -> int {
        self.hand_creatures + self.hand_lands
    }

    /// Every creature card and every land card of the deck is somewhere, and health
    /// never exceeds its start.
    pub open spec fn wf(self) -> bool {
        &&& self.sick + self.active + self.hand_creatures + self.deck_creatures == 20
        &&& self.land + self.hand_lands + self.deck_lands == 20
        &&& self.health <= 20
    }

    /// The player after drawing with sample state `s` from a deck that is not empty.
    pub open spec fn drawn(self, s: int) -> Player {
        if is_land_sample(s, self.deck_creatures as int, self.deck_lands as int) {
            Player {
                hand_lands: (self.hand_lands + 1) as usize,
                deck_lands: (self.deck_lands - 1) as usize,
                ..self
            }
        } else {
            Player {
                hand_creatures: (self.hand_creatures + 1) as usize,
                deck_creatures: (self.deck_creatures - 1) as usize,
                ..self
            }
        }
    }

    /// Drawing from generator state `x`: the player after it, the generator state after
    /// it, and `Some(true)` for a land, `Some(false)` for a creature, `None` for an empty
    /// deck.
    pub open spec fn draw_spec(self, x: int) -> (Player, int, Option<bool>) {
        if self.deck_total() == 0 {
            (self, x, None)
        } else {
            let s = lehmer_next(x);
            let land = is_land_sample(s, self.deck_creatures as int, self.deck_lands as int);
            (self.drawn(s), s, Some(land))
        }
    }

    /// Untap: summoning-sick creatures become active.
    pub open spec fn untapped(self) -> Player {
        Player { active: (self.active + self.sick) as usize, sick: 0, ..self }
    }

    /// First main phase: one land from the hand, if there is one, is played.
    pub open spec fn land_played(self) -> Player {
        if self.hand_lands > 0 {
            Player {
                hand_lands: (self.hand_lands - 1) as usize,
                land: (self.land + 1) as usize,
                ..self
            }
        } else {
            self
        }
    }

    /// Second main phase: creatures are cast while the hand holds one and mana allows.
    pub open spec fn creatures_cast(self) -> Player {
        let k = cast_count(self.hand_creatures as int, self.land as int, self.magnitude as int);
        Player {
            hand_creatures: (self.hand_creatures - k) as usize,
            sick: (self.sick + k) as usize,
            ..self
        }
    }

    /// The player after taking `d` damage.
    pub open spec fn damaged(self, d: int) -> Player {
        Player { health: health_after(self.health as int, d) as usize, ..self }
    }

    /// One turn of `self` against `opp` from generator state `x`: the player, the
    /// opponent and the generator state after it, and its outcome: `Some(true)` when
    /// the opponent was defeated, `Some(false)` when `self` decked out, `None` otherwise.
    pub open spec fn turn_spec(self, opp: Player, x: int) -> (Player, Player, int, Option<bool>) {
        let u = self.untapped();
        if u.deck_total() == 0 {
            (u, opp, x, Some(false))
        } else {
            let s = lehmer_next(x);
            let p = u.drawn(s).land_played();
            let o = opp.damaged(p.magnitude * p.active);
            if o.health == 0 {
                (p, o, s, Some(true))
            } else {
                (p.creatures_cast(), o, s, None)
            }
        }
    }

    /// A fresh player whose creatures have power `n`.
    pub fn new(n: usize) -> (r: Player)
        ensures
            r == fresh_player(n),
            r.wf(),
    {
        Player {
            magnitude: n,
            sick: 0,
            active: 0,
            health: START_HEALTH,
            land: 0,
            hand_creatures: 0,
            hand_lands: 0,
            deck_creatures: CARDS_PER_KIND,
            deck_lands: CARDS_PER_KIND,
        }
    }

    /// Returns the player to the state of a new game; its magnitude stays.
    pub fn reset(&mut self)
        ensures
            *final(self) == fresh_player(old(self).magnitude),
            final(self).wf(),
    {
        self.sick = 0;
        self.active = 0;
        self.health = START_HEALTH;
        self.land = 0;
        self.hand_creatures = 0;
        self.hand_lands = 0;
        self.deck_creatures = CARDS_PER_KIND;
        self.deck_lands = CARDS_PER_KIND;
    }

    /// Cards in the hand.
    pub fn _count_hand(&self) -> (r: usize)
        requires
            self.wf(),
        ensures
            r == self.hand_total(),
    {
        self.hand_creatures + self.hand_lands
    }

    /// Cards left in the deck.
    pub fn count_deck(&self) -> (r: usize)
        requires
            self.wf(),
        ensures
            r == self.deck_total(),
    {
        self.deck_creatures + self.deck_lands
    }

    /// Draws one card with the sample of state `s`, which stands for `s / m`: a land
    /// exactly when that sample is below the share of lands in the deck. Returns
    /// `Some(true)` for a land, `Some(false)` for a creature and `None` for an empty deck.
    pub fn draw_with(&mut self, s: i64) -> (r: Option<bool>)
        requires
            old(self).wf(),
            0 <= s < M_VAL,
        ensures
            final(self).wf(),
            old(self).deck_total() == 0 ==> r is None && *final(self) == *old(self),
            old(self).deck_total() > 0 ==> *final(self) == old(self).drawn(s as int),
            old(self).deck_total() > 0 ==> (r == Some(true) <==> is_land_sample(
                s as int,
                old(self).deck_creatures as int,
                old(self).deck_lands as int,
            )),
            old(self).deck_total() > 0 ==> r is Some,
    {
        let total = self.deck_creatures + self.deck_lands;
        if total == 0 {
            return None;
        }
        assert((s as int) * (total as int) <= 2147483647 * 40) by (nonlinear_arith)
            requires
                0 <= s < 2147483647,
                total <= 40,
        ;
        assert((self.deck_lands as int) * 2147483647 <= 2147483647 * 40) by (nonlinear_arith)
            requires
                self.deck_lands <= 20,
        ;
        let lhs: u128 = (s as u128) * (total as u128);
        let rhs: u128 = (self.deck_lands as u128) * (M_VAL as u128);
        if lhs < rhs {
            proof {
                if self.deck_lands == 0 {
                    assert(rhs == 0);
                }
            }
            self.hand_lands = self.hand_lands + 1;
            self.deck_lands = self.deck_lands - 1;
            Some(true)
        } else {
            proof {
                if self.deck_creatures == 0 {
                    assert((s as int) * (self.deck_lands as int) < (self.deck_lands as int) * modulus())
                        by (nonlinear_arith)
                        requires
                            0 <= s < modulus(),
                            self.deck_lands > 0,
                    ;
                }
            }
            self.hand_creatures = self.hand_creatures + 1;
            self.deck_creatures = self.deck_creatures - 1;
            Some(false)
        }
    }

    /// Draws one card, taking a sample from `p` only where the deck is not empty. Returns
    /// `Some(true)` for a land, `Some(false)` for a creature and `None` for an empty deck.
    pub fn draw(&mut self, p: &mut LehmerProvider) -> (r: Option<bool>)
        requires
            old(self).wf(),
            old(p).wf(),
        ensures
            final(self).wf(),
            final(p).wf(),
            (*final(self), final(p).state(), r) == old(self).draw_spec(old(p).state()),
            final(self).magnitude == old(self).magnitude,
    {
        if self.count_deck() == 0 {
            return None;
        }
        let s = p.next();
        self.draw_with(s)
    }

    /// Plays one turn against `opponent`: untap, draw, play a land, attack with every
    /// active creature, then cast creatures. Returns `Some(true)` when the opponent is
    /// defeated, `Some(false)` when this player decks out, and `None` otherwise.
    pub fn turn(&mut self, opponent: &mut Player, p: &mut LehmerProvider) -> (r: Option<bool>)
        requires
            old(self).wf(),
            old(opponent).wf(),
            old(p).wf(),
        ensures
            final(self).wf(),
            final(opponent).wf(),
            final(p).wf(),
            (*final(self), *final(opponent), final(p).state(), r) == old(self).turn_spec(
                *old(opponent),
                old(p).state(),
            ),
            final(self).magnitude == old(self).magnitude,
            final(opponent).magnitude == old(opponent).magnitude,
    {
        // untap
        self.active = self.active + self.sick;
        self.sick = 0;
        let ghost untapped = *self;
        // draw
        match self.draw(p) {
            None => {
                return Some(false);
            },
            _ => {},
        }
        // first main phase
        if self.hand_lands > 0 {
            self.hand_lands = self.hand_lands - 1;
            self.land = self.land + 1;
        }
        // combat
        let damage: usize = match self.magnitude.checked_mul(self.active) {
            Some(d) => d,
            None => usize::MAX,
        };
        if opponent.take_damage(damage) == 0 {
            return Some(true);
        }
        // second main phase
        let ghost before_cast = *self;
        let mut mana_left: usize = self.land;
        let ghost mut cast: int = 0;
        while self.hand_creatures > 0 && mana_left >= self.magnitude
            invariant
                0 <= cast <= before_cast.hand_creatures,
                before_cast.sick == 0,
                *self == (Player {
                    hand_creatures: (before_cast.hand_creatures - cast) as usize,
                    sick: cast as usize,
                    ..before_cast
                }),
                mana_left as int == before_cast.land - cast * before_cast.magnitude,
                before_cast.wf(),
            decreases self.hand_creatures,
        {
            self.hand_creatures = self.hand_creatures - 1;
            self.sick = self.sick + 1;
            mana_left = mana_left - self.magnitude;
            proof {
                cast = cast + 1;
                assert((cast - 1) * before_cast.magnitude + before_cast.magnitude == cast
                    * before_cast.magnitude) by (nonlinear_arith);
            }
        }
        proof {
            lemma_cast_count(
                before_cast.hand_creatures as int,
                before_cast.land as int,
                before_cast.magnitude as int,
                cast,
                mana_left as int,
            );
        }
        None
    }

    /// Takes `d` damage and returns the health left, which is never below 0.
    pub fn take_damage(&mut self, d: usize) -> (r: usize)
        ensures
            *final(self) == old(self).damaged(d as int),
            r == final(self).health,
    {
        if d > self.health {
            self.health = 0;
            return 0;
        }
        self.health = self.health - d;
        self.health
    }
}

/// Combat in a turn that gets past the draw: the opponent takes exactly `magnitude`
/// times the number of creatures that are active after untapping, and is defeated, ending
/// the turn with a win, exactly when that is at least its health.
pub proof fn lemma_combat(me: Player, opp: Player, x: int)
    requires
        me.wf(),
        opp.wf(),
        me.deck_total() > 0,
    ensures
        ({
            let t = me.turn_spec(opp, x);
            let k = me.active + me.sick;
            &&& t.1.health == health_after(opp.health as int, me.magnitude * k)
            &&& (t.3 == Some(true) <==> opp.health <= me.magnitude * k)
        }),
{
}

/// The casting loop stops after exactly `cast_count` casts.
proof fn lemma_cast_count(hand: int, land: int, m: int, cast: int, mana: int)
    requires
        0 <= cast <= hand,
        0 <= m,
        0 <= mana,
        mana == land - cast * m,
        !(hand - cast > 0 && mana >= m),
    ensures
        cast == cast_count(hand, land, m),
{
    if m > 0 {
        if cast == hand {
            lemma_div_is_ordered(cast * m, land, m);
            lemma_div_by_multiple(cast, m);
        } else {
            lemma_fundamental_div_mod(land, m);
            lemma_mod_pos_bound(land, m);
            let q = land / m;
            let r = land % m;
            assert(q == cast) by (nonlinear_arith)
                requires
                    land == m * q + r,
                    0 <= r < m,
                    0 <= land - cast * m < m,
            ;
        }
    }
}

} // verus!
