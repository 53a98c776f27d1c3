//! The sound events that a tick reports.

use vstd::prelude::*;

verus! {

/// What can be heard during a tick.
#[derive(Clone, Copy, Debug, PartialEq, Eq, PartialOrd, Ord, Hash, Structural)]
pub enum Sounds {
    /// Two player balls merged.
    SlimeSlime,
    /// A player ball picked up a coin.
    Coin,
    /// A player ball and an enemy ball bounced off each other.
    SlimeEnemy,
    /// Two enemy balls bounced off each other.
    EnemyEnemy,
    /// A ball bounced off a rail.
    Border,
    /// A ball fell into a pocket.
    Falling,
}

/// A set of sound events.
#[derive(Clone, Copy, Debug, PartialEq, Eq, Structural)]
pub struct SoundSet {
    slime_slime: bool,
    coin: bool,
    slime_enemy: bool,
    enemy_enemy: bool,
    border: bool,
    falling: bool,
}

impl View for SoundSet {
    type V = Set<Sounds>;

    closed spec fn view(&self) -> Set<Sounds> {
        Set::new(|s: Sounds| self.has(s))
    }
}

/// All sound events, in their order.
pub open spec fn all_sounds() -> Seq<Sounds> {
    seq![
        Sounds::SlimeSlime,
        Sounds::Coin,
        Sounds::SlimeEnemy,
        Sounds::EnemyEnemy,
        Sounds::Border,
        Sounds::Falling,
    ]
}

impl SoundSet {
    spec fn has(self, s: Sounds) -> bool {
        match s {
            Sounds::SlimeSlime => self.slime_slime,
            Sounds::Coin => self.coin,
            Sounds::SlimeEnemy => self.slime_enemy,
            Sounds::EnemyEnemy => self.enemy_enemy,
            Sounds::Border => self.border,
            Sounds::Falling => self.falling,
        }
    }

    /// The empty set.
    pub fn new() -> (set: SoundSet)
        ensures
            set@ == Set::<Sounds>::empty(),
    {
        let set = SoundSet {
            slime_slime: false,
            coin: false,
            slime_enemy: false,
            enemy_enemy: false,
            border: false,
            falling: false,
        };
        assert(set@ =~= Set::<Sounds>::empty());
        set
    }

    /// Adds `s` to the set.
    pub fn insert(&mut self, s: Sounds)
        ensures
            final(self)@ == old(self)@.insert(s),
    {
        match s {
            Sounds::SlimeSlime => {
                self.slime_slime = true;
            },
            Sounds::Coin => {
                self.coin = true;
            },
            Sounds::SlimeEnemy => {
                self.slime_enemy = true;
            },
            Sounds::EnemyEnemy => {
                self.enemy_enemy = true;
            },
            Sounds::Border => {
                self.border = true;
            },
            Sounds::Falling => {
                self.falling = true;
            },
        }
        assert(self@ =~= old(self)@.insert(s));
    }

    /// Whether `s` is in the set.
    pub fn contains(&self, s: Sounds) -> (found: bool)
        ensures
            found == self@.contains(s),
    {
        match s {
            Sounds::SlimeSlime => self.slime_slime,
            Sounds::Coin => self.coin,
            Sounds::SlimeEnemy => self.slime_enemy,
            Sounds::EnemyEnemy => self.enemy_enemy,
            Sounds::Border => self.border,
            Sounds::Falling => self.falling,
        }
    }

    /// Whether the set holds no event.
    pub fn is_empty(&self) -> (empty: bool)
        ensures
            empty == (self@ == Set::<Sounds>::empty()),
    {
        let empty = !(self.slime_slime || self.coin || self.slime_enemy || self.enemy_enemy
            || self.border || self.falling);
        proof {
            if empty {
                assert(self@ =~= Set::<Sounds>::empty());
            } else {
                assert(self@.contains(Sounds::SlimeSlime) || self@.contains(Sounds::Coin)
                    || self@.contains(Sounds::SlimeEnemy) || self@.contains(Sounds::EnemyEnemy)
                    || self@.contains(Sounds::Border) || self@.contains(Sounds::Falling));
            }
        }
        empty
    }

    /// The events of the set, each once, in their order.
    pub fn to_vec(&self) -> (events: Vec<Sounds>)
        ensures
            events@ == all_sounds().filter(|s: Sounds| self@.contains(s)),
    {
        let mut events: Vec<Sounds> = Vec::new();
        let ghost keep = |s: Sounds| self@.contains(s);
        let ghost all = all_sounds();
        proof {
            assert(all.take(0) =~= Seq::<Sounds>::empty());
        }
        let order: [Sounds; 6] = [
            Sounds::SlimeSlime,
            Sounds::Coin,
            Sounds::SlimeEnemy,
            Sounds::EnemyEnemy,
            Sounds::Border,
            Sounds::Falling,
        ];
        let mut k: usize = 0;
        while k < 6
            invariant
                k <= 6,
                order@ == all,
                all == all_sounds(),
                keep == (|s: Sounds| self@.contains(s)),
                events@ == all.take(k as int).filter(keep),
            decreases 6 - k,
        {
            let s: Sounds = order[k];
            proof {
                assert(all.take(k + 1).drop_last() =~= all.take(k as int));
                assert(all.take(k + 1).last() == s);
                reveal_with_fuel(Seq::filter, 1);
            }
            if self.contains(s) {
                events.push(s);
            }
            k += 1;
        }
        proof {
            assert(all.take(6) =~= all);
        }
        events
    }
}

} // verus!
