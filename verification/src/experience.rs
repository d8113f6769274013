use vstd::prelude::*;

verus! {

/// The highest level the player can reach.
pub const MAX_LEVEL: u8 = 9;

/// Experience needed to leave level `lv`: 100 at level 1, then 7/5 of the
/// previous requirement (rounded down) for each further level.
pub open spec fn level_threshold(lv: nat) -> nat
    decreases lv,
{
    if lv <= 1 {
        100
    } else {
        level_threshold((lv - 1) as nat) * 7 / 5
    }
}

/// The requirements of every level up to the cap stay small.
pub proof fn lemma_level_threshold_bounded(lv: nat)
    requires
        1 <= lv <= 9,
    ensures
        level_threshold(lv) <= 1470,
        level_threshold(lv) >= 100,
{
    assert(level_threshold(1) == 100);
    assert(level_threshold(2) == 140);
    assert(level_threshold(3) == 196);
    assert(level_threshold(4) == 274);
    assert(level_threshold(5) == 383);
    assert(level_threshold(6) == 536);
    assert(level_threshold(7) == 750);
    assert(level_threshold(8) == 1050);
    assert(level_threshold(9) == 1470);
}

/// The player's experience: points gathered towards the next level, the
/// level itself and the bonus orbs that every drop of experience yields.
pub struct PlayerExperience {
    current: u32,
    to_lv_up: u32,
    lv: u8,
    popup_flag: bool,
    orb_bonus: u32,
}

impl PlayerExperience {
    /// The requirement for the next level always follows the level, and the
    /// level stays between 1 and the cap.
    #[verifier::type_invariant]
    spec fn inv(self) -> bool {
        &&& 1 <= self.lv <= MAX_LEVEL
        &&& self.to_lv_up == level_threshold(self.lv as nat)
    }

    pub closed spec fn current_spec(self) -> u32 {
        self.current
    }

    pub closed spec fn to_lv_up_spec(self) -> u32 {
        self.to_lv_up
    }

    pub closed spec fn lv_spec(self) -> u8 {
        self.lv
    }

    pub closed spec fn popup_spec(self) -> bool {
        self.popup_flag
    }

    pub closed spec fn orb_bonus_spec(self) -> u32 {
        self.orb_bonus
    }

    /// A fresh player: level 1, no experience, 100 points to the next level.
    pub fn new() -> (e: PlayerExperience)
        ensures
            e.current_spec() == 0,
            e.to_lv_up_spec() == 100,
            e.lv_spec() == 1,
            !e.popup_spec(),
            e.orb_bonus_spec() == 0,
    {
        PlayerExperience { current: 0, to_lv_up: 100, lv: 1, popup_flag: false, orb_bonus: 0 }
    }

    /// Experience gathered towards the next level.
    pub fn current(&self) -> (r: u32)
        ensures
            r == self.current_spec(),
    {
        self.current
    }

    /// Experience the current level requires.
    pub fn to_lv_up(&self) -> (r: u32)
        ensures
            r == self.to_lv_up_spec(),
            r == level_threshold(self.lv_spec() as nat),
    {
        proof {
            use_type_invariant(self);
        }
        self.to_lv_up
    }

    /// The current level.
    pub fn lv(&self) -> (r: u8)
        ensures
            r == self.lv_spec(),
            1 <= r <= MAX_LEVEL,
    {
        proof {
            use_type_invariant(self);
        }
        self.lv
    }

    /// Extra orbs dropped with every portion of experience.
    pub fn orb_bonus(&self) -> (r: u32)
        ensures
            r == self.orb_bonus_spec(),
    {
        self.orb_bonus
    }

    /// One more bonus orb per drop (the amulet's effect).
    pub fn add_orb_bonus(&mut self)
        requires
            old(self).orb_bonus_spec() < u32::MAX,
        ensures
            final(self).orb_bonus_spec() == old(self).orb_bonus_spec() + 1,
            final(self).current_spec() == old(self).current_spec(),
            final(self).lv_spec() == old(self).lv_spec(),
            final(self).to_lv_up_spec() == old(self).to_lv_up_spec(),
            final(self).popup_spec() == old(self).popup_spec(),
    {
        proof {
            use_type_invariant(&*self);
        }
        self.orb_bonus = self.orb_bonus + 1;
    }

    /// Reports whether a level was gained since the last call, and forgets it.
    pub fn take_level_up_popup(&mut self) -> (r: bool)
        ensures
            r == old(self).popup_spec(),
            !final(self).popup_spec(),
            final(self).current_spec() == old(self).current_spec(),
            final(self).lv_spec() == old(self).lv_spec(),
            final(self).to_lv_up_spec() == old(self).to_lv_up_spec(),
            final(self).orb_bonus_spec() == old(self).orb_bonus_spec(),
    {
        proof {
            use_type_invariant(&*self);
        }
        let r = self.popup_flag;
        self.popup_flag = false;
        r
    }

    /// Gives `value` experience. When the total reaches the requirement and
    /// the level is below the cap, the player gains one level, keeps the
    /// surplus, the requirement grows by 7/5, and a level-up is reported;
    /// otherwise the experience simply accumulates.
    pub fn give(&mut self, value: u32)
        requires
            old(self).current_spec() + value <= u32::MAX,
        ensures
            final(self).orb_bonus_spec() == old(self).orb_bonus_spec(),
            old(self).lv_spec() <= final(self).lv_spec() <= old(self).lv_spec() + 1,
            1 <= final(self).lv_spec() <= MAX_LEVEL,
            ({
                let total = old(self).current_spec() + value;
                if total >= old(self).to_lv_up_spec() && old(self).lv_spec() < MAX_LEVEL {
                    &&& final(self).lv_spec() == old(self).lv_spec() + 1
                    &&& final(self).current_spec() == total - old(self).to_lv_up_spec()
                    &&& final(self).to_lv_up_spec() == old(self).to_lv_up_spec() * 7 / 5
                    &&& final(self).popup_spec()
                } else {
                    &&& final(self).lv_spec() == old(self).lv_spec()
                    &&& final(self).current_spec() == total
                    &&& final(self).to_lv_up_spec() == old(self).to_lv_up_spec()
                    &&& final(self).popup_spec() == old(self).popup_spec()
                }
            }),
    {
        proof {
            use_type_invariant(&*self);
            lemma_level_threshold_bounded(self.lv as nat);
        }
        if self.current + value >= self.to_lv_up && self.lv < MAX_LEVEL {
            let next_lv = self.lv + 1;
            assert(level_threshold(next_lv as nat) == level_threshold(self.lv as nat) * 7 / 5);
            *self = PlayerExperience {
                current: self.current + value - self.to_lv_up,
                to_lv_up: self.to_lv_up * 7 / 5,
                lv: next_lv,
                popup_flag: true,
                orb_bonus: self.orb_bonus,
            };
        } else {
            self.current = self.current + value;
        }
    }
}

} // verus!
