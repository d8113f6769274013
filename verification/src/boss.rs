use vstd::prelude::*;
use crate::health::Health;
use crate::mobs::MobType;
use crate::summon::{SummonQueue, SummonUnit, empty_unit, resized};
use crate::timer::{RepeatTimer, ticked, finishes};

verus! {

/// The boss's attacks, in the order of their slots in the planner.
#[derive(Clone, Copy, Debug, PartialEq, Eq, Structural)]
pub enum BossAttackType {
    SpawnEarthElemental,
    SpawnAirElemental,
    Radial,
    ProjectilePattern,
    Shield,
    SpawnFireElemental,
    SpawnWaterElemental,
    FastPierce,
    Blank,
    Wall,
    SpawnClayGolem,
    MegaStan,
}

/// Number of boss attacks.
pub const ATTACK_COUNT: usize = 12;

/// The slot of an attack in the planner.
pub open spec fn attack_slot(a: BossAttackType) -> nat {
    match a {
        BossAttackType::SpawnEarthElemental => 0,
        BossAttackType::SpawnAirElemental => 1,
        BossAttackType::Radial => 2,
        BossAttackType::ProjectilePattern => 3,
        BossAttackType::Shield => 4,
        BossAttackType::SpawnFireElemental => 5,
        BossAttackType::SpawnWaterElemental => 6,
        BossAttackType::FastPierce => 7,
        BossAttackType::Blank => 8,
        BossAttackType::Wall => 9,
        BossAttackType::SpawnClayGolem => 10,
        BossAttackType::MegaStan => 11,
    }
}

/// The attack in a slot, for slots below 12.
pub open spec fn attack_in_slot(i: nat) -> BossAttackType {
    if i == 0 { BossAttackType::SpawnEarthElemental }
    else if i == 1 { BossAttackType::SpawnAirElemental }
    else if i == 2 { BossAttackType::Radial }
    else if i == 3 { BossAttackType::ProjectilePattern }
    else if i == 4 { BossAttackType::Shield }
    else if i == 5 { BossAttackType::SpawnFireElemental }
    else if i == 6 { BossAttackType::SpawnWaterElemental }
    else if i == 7 { BossAttackType::FastPierce }
    else if i == 8 { BossAttackType::Blank }
    else if i == 9 { BossAttackType::Wall }
    else if i == 10 { BossAttackType::SpawnClayGolem }
    else { BossAttackType::MegaStan }
}

impl BossAttackType {
    /// The slot of the attack.
    pub fn slot(&self) -> (r: usize)
        ensures
            r == attack_slot(*self),
            r < ATTACK_COUNT,
            attack_in_slot(r as nat) == *self,
    {
        match self {
            BossAttackType::SpawnEarthElemental => 0,
            BossAttackType::SpawnAirElemental => 1,
            BossAttackType::Radial => 2,
            BossAttackType::ProjectilePattern => 3,
            BossAttackType::Shield => 4,
            BossAttackType::SpawnFireElemental => 5,
            BossAttackType::SpawnWaterElemental => 6,
            BossAttackType::FastPierce => 7,
            BossAttackType::Blank => 8,
            BossAttackType::Wall => 9,
            BossAttackType::SpawnClayGolem => 10,
            BossAttackType::MegaStan => 11,
        }
    }

    /// The attack in slot `value`; slots past the last are an error.
    pub fn try_from(value: usize) -> (r: Result<BossAttackType, ()>)
        ensures
            value < ATTACK_COUNT ==> r == Ok::<BossAttackType, ()>(attack_in_slot(value as nat)),
            value < ATTACK_COUNT ==> attack_slot(attack_in_slot(value as nat)) == value,
            value >= ATTACK_COUNT ==> r is Err,
    {
        match value {
            0 => Ok(BossAttackType::SpawnEarthElemental),
            1 => Ok(BossAttackType::SpawnAirElemental),
            2 => Ok(BossAttackType::Radial),
            3 => Ok(BossAttackType::ProjectilePattern),
            4 => Ok(BossAttackType::Shield),
            5 => Ok(BossAttackType::SpawnFireElemental),
            6 => Ok(BossAttackType::SpawnWaterElemental),
            7 => Ok(BossAttackType::FastPierce),
            8 => Ok(BossAttackType::Blank),
            9 => Ok(BossAttackType::Wall),
            10 => Ok(BossAttackType::SpawnClayGolem),
            11 => Ok(BossAttackType::MegaStan),
            _ => Err(()),
        }
    }
}

/// The family of an attack, which decides what its weight reacts to.
#[derive(Clone, Copy, Debug, PartialEq, Eq, Structural)]
pub enum BossAttackFlag {
    ProjectileSpells,
    DefensiveSpells,
    SpawnSpells,
}

/// The family of each attack.
pub open spec fn attack_flag(a: BossAttackType) -> BossAttackFlag {
    match a {
        BossAttackType::SpawnEarthElemental | BossAttackType::SpawnAirElemental
        | BossAttackType::SpawnFireElemental | BossAttackType::SpawnClayGolem
        | BossAttackType::SpawnWaterElemental => BossAttackFlag::SpawnSpells,
        BossAttackType::Shield | BossAttackType::Blank => BossAttackFlag::DefensiveSpells,
        _ => BossAttackFlag::ProjectileSpells,
    }
}

/// The mob a spawn attack summons (moss for the others).
pub open spec fn attack_mob(a: BossAttackType) -> MobType {
    match a {
        BossAttackType::SpawnEarthElemental => MobType::EarthElemental,
        BossAttackType::SpawnAirElemental => MobType::AirElemental,
        BossAttackType::SpawnFireElemental => MobType::FireElemental,
        BossAttackType::SpawnClayGolem => MobType::ClayGolem,
        BossAttackType::SpawnWaterElemental => MobType::WaterElemental,
        _ => MobType::Mossling,
    }
}

/// `1` when `b` holds, else `0`.
pub open spec fn bit(b: bool) -> int {
    if b { 1 } else { 0 }
}

/// Whether an attack is barred in a phase: each attack belongs to some of
/// the boss's three phases.
pub open spec fn barred_in_phase(a: BossAttackType, phase: u8) -> bool {
    match a {
        BossAttackType::SpawnEarthElemental => phase == 3,
        BossAttackType::SpawnAirElemental => phase != 1,
        BossAttackType::SpawnFireElemental => phase == 3,
        BossAttackType::SpawnClayGolem => phase != 1,
        BossAttackType::SpawnWaterElemental => phase == 3,
        BossAttackType::Radial => phase == 1,
        BossAttackType::Shield => phase != 2,
        BossAttackType::Blank => phase != 3,
        BossAttackType::Wall => phase == 1,
        BossAttackType::MegaStan => phase <= 2,
        BossAttackType::FastPierce => phase == 1,
        BossAttackType::ProjectilePattern => phase != 3,
    }
}

/// Weight of an attack before the fight's situation counts: a hundred per
/// slot, the lowest `i16` when the phase bars it, and a bonus of 5000 for the
/// projectile pattern and for summoning earth elementals while the boss
/// commands no real minion.
pub open spec fn base_weight(i: nat, phase: u8, minions: nat) -> int {
    let a = attack_in_slot(i);
    i * 100 + bit(barred_in_phase(a, phase)) * (i16::MIN as int) + match a {
        BossAttackType::SpawnEarthElemental => 5000 * bit(minions == 0),
        BossAttackType::ProjectilePattern => 5000,
        _ => 0,
    }
}

/// The phases of the fight allow the attacks as the game's table has it. In
/// slot order, an attack's base weight is a hundred per slot, lowered by
/// 32768 in the phases that bar it: summoning earth elementals is barred in
/// the third phase (and gains 5000 while the boss commands no minion); air
/// elementals outside the first; the radial attack in the first; the
/// projectile pattern outside the third (and gains 5000); the shield outside
/// the second; fire and water elementals in the third; the fast pierce in
/// the first; the blank outside the third; the wall in the first; the clay
/// golem outside the first; the mega stun in the first two.
pub proof fn lemma_phase_table(phase: u8, minions: nat)
    ensures
        base_weight(0, phase, minions) == (if phase == 3 { -32768int } else { 0int }) + (if minions == 0 { 5000int } else { 0int }),
        base_weight(1, phase, minions) == 100 + (if phase != 1 { -32768int } else { 0int }),
        base_weight(2, phase, minions) == 200 + (if phase == 1 { -32768int } else { 0int }),
        base_weight(3, phase, minions) == 300 + (if phase != 3 { -32768int } else { 0int }) + 5000,
        base_weight(4, phase, minions) == 400 + (if phase != 2 { -32768int } else { 0int }),
        base_weight(5, phase, minions) == 500 + (if phase == 3 { -32768int } else { 0int }),
        base_weight(6, phase, minions) == 600 + (if phase == 3 { -32768int } else { 0int }),
        base_weight(7, phase, minions) == 700 + (if phase == 1 { -32768int } else { 0int }),
        base_weight(8, phase, minions) == 800 + (if phase != 3 { -32768int } else { 0int }),
        base_weight(9, phase, minions) == 900 + (if phase == 1 { -32768int } else { 0int }),
        base_weight(10, phase, minions) == 1000 + (if phase != 1 { -32768int } else { 0int }),
        base_weight(11, phase, minions) == 1100 + (if phase <= 2 { -32768int } else { 0int }),
{
}

/// The weight of a ready projectile attack: in a phase that allows it, its
/// base weight plus one per twenty lost hit points (as an `i16`) and ten per
/// unit of the player's distance; in a phase that bars it, its base weight
/// alone. So in the last phase the ready mega stun weighs 1100 plus those.
pub proof fn lemma_projectile_weights(w: WeightInputs, kind_count: nat)
    ensures
        (w.mask & (1u32 << 11u32)) != 0 ==> weight_spec(11, w, kind_count) == (if w.phase <= 2 {
            1100 - 32768
        } else {
            1100 + (div_trunc(w.hp_max - w.hp_current, 20) as i16) as int + w.dist * 10
        }),
        (w.mask & (1u32 << 9u32)) != 0 ==> weight_spec(9, w, kind_count) == (if w.phase == 1 {
            900 - 32768
        } else {
            900 + (div_trunc(w.hp_max - w.hp_current, 20) as i16) as int + w.dist * 10
        }),
        (w.mask & (1u32 << 7u32)) != 0 ==> weight_spec(7, w, kind_count) == (if w.phase == 1 {
            700 - 32768
        } else {
            700 + (div_trunc(w.hp_max - w.hp_current, 20) as i16) as int + w.dist * 10
        }),
        (w.mask & (1u32 << 2u32)) != 0 ==> weight_spec(2, w, kind_count) == (if w.phase == 1 {
            200 - 32768
        } else {
            200 + (div_trunc(w.hp_max - w.hp_current, 20) as i16) as int + w.dist * 10
        }),
        (w.mask & (1u32 << 3u32)) != 0 ==> weight_spec(3, w, kind_count) == (if w.phase != 3 {
            5300 - 32768
        } else {
            5300 + (div_trunc(w.hp_max - w.hp_current, 20) as i16) as int + w.dist * 10
        }),
        (w.mask & (1u32 << 11u32)) == 0 ==> weight_spec(11, w, kind_count) == -10000,
        (w.mask & (1u32 << 4u32)) != 0 ==> weight_spec(4, w, kind_count) == (if w.phase != 2 {
            400 - 32768
        } else {
            400 + ((div_trunc(w.hp_max - w.hp_current, 20) * 3) as i32 as i16) as int + (if w.dist <= 200 || w.dist >= 400 {
                w.dist as int
            } else {
                0
            })
        }),
        (w.mask & (1u32 << 8u32)) != 0 ==> weight_spec(8, w, kind_count) == (if w.phase != 3 {
            800 - 32768
        } else {
            800 + ((div_trunc(w.hp_max - w.hp_current, 20) * 3) as i32 as i16) as int + (if w.dist <= 200 || w.dist >= 400 {
                w.dist as int
            } else {
                0
            })
        }),
{
    lemma_phase_table(w.phase, w.minions);
}

/// Integer division rounding towards zero, as the game's arithmetic does.
pub open spec fn div_trunc(a: int, d: int) -> int {
    if a >= 0 {
        a / d
    } else {
        -((-a) / d)
    }
}

/// Everything a weight depends on besides the slot.
pub struct WeightInputs {
    pub mask: u32,
    pub phase: u8,
    pub hp_max: i32,
    pub hp_current: i32,
    pub dist: i16,
    pub queue_len: nat,
    pub minions: nat,
    pub amount: u8,
}

/// The boss's lost hit points over twenty, as a truncated `i16`.
pub open spec fn hp_term(w: WeightInputs) -> int {
    div_trunc(w.hp_max - w.hp_current, 20) as i16 as int
}

/// The first part of a spawn weight: a hundred for each free place among
/// the queue's places plus five, less fifty for each minion of the kind.
pub open spec fn spawn_room_term(w: WeightInputs, kind_count: nat) -> (int, int) {
    (((w.queue_len + 5 - w.minions) as i16) as int * 100, (kind_count as i16) as int * 50)
}

/// The part of a spawn weight that the minions in use take away.
pub open spec fn spawn_crowd_term(w: WeightInputs) -> int {
    ((w.amount as int * (150 * (bit(w.phase == 2) + 50))) as i32 as i16) as int
}

/// Whether the game's `i16` arithmetic for the weight of slot `i` stays in
/// range (the game computes it without wrapping).
pub open spec fn weight_fits(i: nat, w: WeightInputs, kind_count: nat) -> bool {
    let b = base_weight(i, w.phase, w.minions);
    let a = attack_in_slot(i);
    &&& i16::MIN <= b <= i16::MAX
    &&& i32::MIN <= w.hp_max - w.hp_current <= i32::MAX
    &&& (w.mask & (1u32 << (i as u32))) == 0 || b <= i16::MIN / 2 || match attack_flag(a) {
        BossAttackFlag::DefensiveSpells => {
            let t = div_trunc(w.hp_max - w.hp_current, 20) * 3;
            let d = w.dist * bit(w.dist <= 200 || w.dist >= 400);
            &&& i32::MIN <= t <= i32::MAX
            &&& i16::MIN <= (t as i32 as i16) + d <= i16::MAX
            &&& i16::MIN <= b + (t as i32 as i16) + d <= i16::MAX
        },
        BossAttackFlag::ProjectileSpells => {
            &&& i16::MIN <= w.dist * 10 <= i16::MAX
            &&& i16::MIN <= hp_term(w) + w.dist * 10 <= i16::MAX
            &&& i16::MIN <= b + hp_term(w) + w.dist * 10 <= i16::MAX
        },
        BossAttackFlag::SpawnSpells => {
            let (x, y) = spawn_room_term(w, kind_count);
            &&& w.minions <= w.queue_len
            &&& w.queue_len + 5 <= usize::MAX
            &&& i16::MIN <= x <= i16::MAX
            &&& i16::MIN <= y <= i16::MAX
            &&& i16::MIN <= x - y <= i16::MAX
            &&& i16::MIN <= b + x - y <= i16::MAX
            &&& i16::MIN <= hp_term(w) - spawn_crowd_term(w) <= i16::MAX
            &&& i16::MIN <= b + x - y + hp_term(w) - spawn_crowd_term(w) <= i16::MAX
        },
    }
}

/// The weight of slot `i`: `-10000` while the attack cools down; the base
/// weight when the phase bars it; otherwise the base weight plus what the
/// situation adds: defensive spells grow with lost hit points (three per
/// twenty) and with the player's distance outside 200..400; projectile spells
/// with lost hit points (one per twenty) and ten per unit of distance; spawns
/// with free places and lost hit points, less the minions of the kind and
/// the minions in use.
pub open spec fn weight_spec(i: nat, w: WeightInputs, kind_count: nat) -> int {
    let b = base_weight(i, w.phase, w.minions);
    let a = attack_in_slot(i);
    if (w.mask & (1u32 << (i as u32))) == 0 {
        -10000
    } else if b <= i16::MIN / 2 {
        b
    } else {
        match attack_flag(a) {
            BossAttackFlag::DefensiveSpells => {
                let t = div_trunc(w.hp_max - w.hp_current, 20) * 3;
                b + (t as i32 as i16) + w.dist * bit(w.dist <= 200 || w.dist >= 400)
            },
            BossAttackFlag::ProjectileSpells => b + hp_term(w) + w.dist * 10,
            BossAttackFlag::SpawnSpells => {
                let (x, y) = spawn_room_term(w, kind_count);
                b + x - y + hp_term(w) - spawn_crowd_term(w)
            },
        }
    }
}

/// Number of units in `s` that are real minions (not fillers).
pub open spec fn minion_count(s: Seq<SummonUnit>) -> nat
    decreases s.len(),
{
    if s.len() == 0 {
        0
    } else {
        minion_count(s.drop_last()) + if s.last().mob_type != MobType::Mossling { 1nat } else { 0nat }
    }
}

/// Number of units in `s` of kind `m`.
pub open spec fn kind_count(s: Seq<SummonUnit>, m: MobType) -> nat
    decreases s.len(),
{
    if s.len() == 0 {
        0
    } else {
        kind_count(s.drop_last(), m) + if s.last().mob_type == m { 1nat } else { 0nat }
    }
}

/// The inputs of the weights, from the boss's state.
pub open spec fn weight_inputs(mask: u32, phase: u8, hp: Health, dist: i16, summons: Seq<SummonUnit>, amount: u8) -> WeightInputs {
    WeightInputs {
        mask,
        phase,
        hp_max: hp.max,
        hp_current: hp.current,
        dist,
        queue_len: summons.len(),
        minions: minion_count(summons),
        amount,
    }
}

/// Whether the game's arithmetic for the weight of slot `i` stays in range,
/// for the boss's state.
pub open spec fn planned_fits(i: int, mask: u32, phase: u8, hp: Health, dist: i16, summons: Seq<SummonUnit>, amount: u8) -> bool {
    weight_fits(i as nat, weight_inputs(mask, phase, hp, dist, summons, amount), kind_count(summons, attack_mob(attack_in_slot(i as nat))))
}

/// The weight of slot `i` for the boss's state.
pub open spec fn planned_weight(i: int, mask: u32, phase: u8, hp: Health, dist: i16, summons: Seq<SummonUnit>, amount: u8) -> int {
    weight_spec(i as nat, weight_inputs(mask, phase, hp, dist, summons, amount), kind_count(summons, attack_mob(attack_in_slot(i as nat))))
}

/// Counts the real minions and the minions of kind `m` among `s`.
fn count_minions(s: &Vec<SummonUnit>, m: MobType) -> (r: (usize, usize))
    ensures
        r.0 == minion_count(s@),
        r.1 == kind_count(s@, m),
        r.0 <= s@.len(),
        r.1 <= s@.len(),
{
    let mut minions: usize = 0;
    let mut kind: usize = 0;
    let mut i: usize = 0;
    while i < s.len()
        invariant
            0 <= i <= s@.len(),
            minions == minion_count(s@.take(i as int)),
            kind == kind_count(s@.take(i as int), m),
            minions <= i,
            kind <= i,
        decreases s@.len() - i,
    {
        assert(s@.take((i + 1) as int).drop_last() =~= s@.take(i as int));
        if s[i].mob_type != MobType::Mossling {
            minions = minions + 1;
        }
        if s[i].mob_type == m {
            kind = kind + 1;
        }
        i = i + 1;
    }
    assert(s@.take(s@.len() as int) =~= s@);
    (minions, kind)
}

/// The boss's attack planner: one weight per attack slot and a mask with
/// one bit per slot, set while the attack is ready (not cooling down).
pub struct BossAttackPlanner {
    pub weight_array: Vec<i16>,
    pub cooldown_mask: u32,
}

/// The boss's lost hit points over twenty, as the game computes it.
fn lost_hp_over_20(hp: &Health) -> (r: i32)
    requires
        i32::MIN <= hp.max - hp.current <= i32::MAX,
    ensures
        r == div_trunc(hp.max - hp.current, 20),
{
    let lost = hp.max - hp.current;
    let r = lost / 20;
    if lost >= 0 {
        assert(r == lost / 20);
    }
    r
}

/// Whether the phase bars the attack (see `barred_in_phase`).
fn is_barred(a: BossAttackType, phase: u8) -> (b: bool)
    ensures
        b == barred_in_phase(a, phase),
{
    match a {
        BossAttackType::SpawnEarthElemental => phase == 3,
        BossAttackType::SpawnAirElemental => phase != 1,
        BossAttackType::SpawnFireElemental => phase == 3,
        BossAttackType::SpawnClayGolem => phase != 1,
        BossAttackType::SpawnWaterElemental => phase == 3,
        BossAttackType::Radial => phase == 1,
        BossAttackType::Shield => phase != 2,
        BossAttackType::Blank => phase != 3,
        BossAttackType::Wall => phase == 1,
        BossAttackType::MegaStan => phase <= 2,
        BossAttackType::FastPierce => phase == 1,
        BossAttackType::ProjectilePattern => phase != 3,
    }
}

/// The base weight of slot `i` (see `base_weight`).
fn compute_base_weight(i: usize, phase: u8, minions: usize) -> (b: i16)
    requires
        i < ATTACK_COUNT,
    ensures
        b == base_weight(i as nat, phase, minions as nat),
{
    let slot = i as i16 * 100;
    let a = attack_in_slot_exec(i);
    let barred = is_barred(a, phase);
    let penalty: i16 = if barred { i16::MIN } else { 0 };
    let bonus: i16 = match a {
        BossAttackType::SpawnEarthElemental => if minions == 0 { 5000 } else { 0 },
        BossAttackType::ProjectilePattern => 5000,
        _ => 0,
    };
    slot + (penalty + bonus)
}

/// The attack in slot `i`.
fn attack_in_slot_exec(i: usize) -> (a: BossAttackType)
    requires
        i < ATTACK_COUNT,
    ensures
        a == attack_in_slot(i as nat),
{
    match BossAttackType::try_from(i) {
        Ok(a) => a,
        Err(_) => BossAttackType::MegaStan,
    }
}

/// Whether the weight of slot `i` can be computed without leaving the
/// ranges of the game's arithmetic (see `weight_fits`).
fn slot_fits(i: usize, mask: u32, phase: u8, hp: &Health, dist: i16, summons: &SummonQueue) -> (b: bool)
    requires
        i < ATTACK_COUNT,
    ensures
        b == planned_fits(i as int, mask, phase, *hp, dist, summons.queue@, summons.amount_of_mobs),
{
    let a = attack_in_slot_exec(i);
    let (minions, kind) = count_minions(&summons.queue, mob_of_attack(a));
    let ghost w = weight_inputs(mask, phase, *hp, dist, summons.queue@, summons.amount_of_mobs);
    let ghost kc = kind_count(summons.queue@, attack_mob(a));
    let slot: i64 = (i as i64) * 100;
    let barred = is_barred(a, phase);
    let bonus: i64 = match a {
        BossAttackType::SpawnEarthElemental => if minions == 0 { 5000 } else { 0 },
        BossAttackType::ProjectilePattern => 5000,
        _ => 0,
    };
    let b: i64 = slot + (if barred { -32768i64 } else { 0 }) + bonus;
    assert(b == base_weight(i as nat, phase, minions as nat));
    if b < -32768 || b > 32767 {
        return false;
    }
    let lost: i64 = (hp.max as i64) - (hp.current as i64);
    if lost < -2147483648 || lost > 2147483647 {
        return false;
    }
    if mask & (1u32 << (i as u32)) == 0 || b <= -16384 {
        return true;
    }
    let lost20: i64 = if lost >= 0 { lost / 20 } else { -((-lost) / 20) };
    assert(lost20 == div_trunc(lost as int, 20));
    let d: i64 = dist as i64;
    let hp_t: i64 = (#[verifier::truncate] (lost20 as i16)) as i64;
    assert(hp_t == hp_term(w));
    match a {
        BossAttackType::Shield | BossAttackType::Blank => {
            let t: i64 = lost20 * 3;
            if t < -2147483648 || t > 2147483647 {
                return false;
            }
            let tt: i64 = (#[verifier::truncate] ((t as i32) as i16)) as i64;
            let dd: i64 = if dist <= 200 || dist >= 400 { d } else { 0 };
            let x = tt + dd;
            let y = b + tt + dd;
            -32768 <= x && x <= 32767 && -32768 <= y && y <= 32767
        },
        BossAttackType::SpawnEarthElemental | BossAttackType::SpawnAirElemental
        | BossAttackType::SpawnFireElemental | BossAttackType::SpawnClayGolem
        | BossAttackType::SpawnWaterElemental => {
            let n = summons.queue.len();
            if minions > n || n > usize::MAX - 5 {
                return false;
            }
            let x: i64 = ((#[verifier::truncate] ((n + 5 - minions) as i16)) as i64) * 100;
            let y: i64 = ((#[verifier::truncate] (kind as i16)) as i64) * 50;
            let p2: i64 = if phase == 2 { 1 } else { 0 };
            let amount: i64 = summons.amount_of_mobs as i64;
            assert(0 <= amount * (150 * (p2 + 50)) <= 255 * 7650) by (nonlinear_arith)
                requires
                    0 <= amount <= 255,
                    0 <= p2 <= 1,
            ;
            let crowd: i64 = (#[verifier::truncate] (((amount * (150 * (p2 + 50))) as i32) as i16)) as i64;
            assert(crowd == spawn_crowd_term(w));
            assert(x == spawn_room_term(w, kc).0 && y == spawn_room_term(w, kc).1);
            -32768 <= x && x <= 32767 && -32768 <= y && y <= 32767 && -32768 <= x - y && x - y <= 32767 && -32768
                <= b + x - y && b + x - y <= 32767 && -32768 <= hp_t - crowd && hp_t - crowd <= 32767 && -32768
                <= b + x - y + hp_t - crowd && b + x - y + hp_t - crowd <= 32767
        },
        _ => {
            let x = d * 10;
            -32768 <= x && x <= 32767 && -32768 <= hp_t + x && hp_t + x <= 32767 && -32768 <= b + hp_t + x && b
                + hp_t + x <= 32767
        },
    }
}

impl BossAttackPlanner {
    /// Whether every weight can be computed without leaving the ranges of
    /// the game's arithmetic, so that `recalculate_weights` may run.
    pub fn weights_fit(&self, summons: &SummonQueue, hp: &Health, dist: i16, phase: u8) -> (b: bool)
        ensures
            b == (self.weight_array@.len() <= ATTACK_COUNT && forall|i: int| 0 <= i < self.weight_array@.len()
                ==> #[trigger] planned_fits(i, self.cooldown_mask, phase, *hp, dist, summons.queue@, summons.amount_of_mobs)),
    {
        if self.weight_array.len() > ATTACK_COUNT {
            return false;
        }
        let mut i: usize = 0;
        while i < self.weight_array.len()
            invariant
                0 <= i <= self.weight_array@.len(),
                self.weight_array@.len() <= ATTACK_COUNT,
                forall|j: int| 0 <= j < i ==> #[trigger] planned_fits(j, self.cooldown_mask, phase, *hp, dist, summons.queue@, summons.amount_of_mobs),
            decreases self.weight_array@.len() - i,
        {
            if !slot_fits(i, self.cooldown_mask, phase, hp, dist, summons) {
                return false;
            }
            i = i + 1;
        }
        true
    }
}

impl BossAttackPlanner {
    /// Recomputes the weight of every attack slot from the boss's state: its
    /// cooldown mask, phase, hit points, the player's distance (rounded down)
    /// and the boss's summons (see `weight_spec`).
    pub fn recalculate_weights(&mut self, summons: &SummonQueue, hp: &Health, dist: i16, phase: u8)
        requires
            old(self).weight_array@.len() <= ATTACK_COUNT,
            forall|i: int| 0 <= i < old(self).weight_array@.len() ==> #[trigger] planned_fits(
                i, old(self).cooldown_mask, phase, *hp, dist, summons.queue@, summons.amount_of_mobs),
        ensures
            final(self).cooldown_mask == old(self).cooldown_mask,
            final(self).weight_array@.len() == old(self).weight_array@.len(),
            forall|i: int| 0 <= i < final(self).weight_array@.len() ==> #[trigger] final(self).weight_array@[i]
                == planned_weight(i, old(self).cooldown_mask, phase, *hp, dist, summons.queue@, summons.amount_of_mobs),
    {
        let ghost w = weight_inputs(self.cooldown_mask, phase, *hp, dist, summons.queue@, summons.amount_of_mobs);
        let n = self.weight_array.len();
        let mut i: usize = 0;
        while i < n
            invariant
                n == self.weight_array@.len(),
                n == old(self).weight_array@.len(),
                n <= ATTACK_COUNT,
                0 <= i <= n,
                self.cooldown_mask == old(self).cooldown_mask,
                w == weight_inputs(old(self).cooldown_mask, phase, *hp, dist, summons.queue@, summons.amount_of_mobs),
                forall|j: int| 0 <= j < n ==> #[trigger] planned_fits(j, old(self).cooldown_mask, phase, *hp, dist, summons.queue@, summons.amount_of_mobs),
                forall|j: int| 0 <= j < i ==> #[trigger] self.weight_array@[j] == planned_weight(j, old(self).cooldown_mask, phase, *hp, dist, summons.queue@, summons.amount_of_mobs),
            decreases n - i,
        {
            let a = attack_in_slot_exec(i);
            let ghost kc = kind_count(summons.queue@, attack_mob(a));
            assert(planned_fits(i as int, old(self).cooldown_mask, phase, *hp, dist, summons.queue@, summons.amount_of_mobs));
            assert(weight_fits(i as nat, w, kc));
            let (minions, kind) = count_minions(&summons.queue, mob_of_attack(a));
            let ii = i as u32;
            let value: i16;
            if self.cooldown_mask & (1u32 << ii) == 0 {
                value = -10000;
            } else {
                let base = compute_base_weight(i, phase, minions);
                if base <= i16::MIN / 2 {
                    value = base;
                } else {
                    match a {
                        BossAttackType::Shield | BossAttackType::Blank => {
                            let lost = lost_hp_over_20(hp);
                            let near_or_far: i16 = if dist <= 200 || dist >= 400 { 1 } else { 0 };
                            value = base + (#[verifier::truncate] ((lost * 3) as i16) + dist * near_or_far);
                        },
                        BossAttackType::SpawnEarthElemental | BossAttackType::SpawnAirElemental
                        | BossAttackType::SpawnFireElemental | BossAttackType::SpawnClayGolem
                        | BossAttackType::SpawnWaterElemental => {
                            let free = #[verifier::truncate] ((summons.queue.len() + 5 - minions) as i16);
                            let step = base + (free * 100 - (#[verifier::truncate] (kind as i16)) * 50);
                            let lost = lost_hp_over_20(hp);
                            let p2: i32 = if phase == 2 { 1 } else { 0 };
                            let amount = summons.amount_of_mobs as i32;
                            let factor = 150 * (p2 + 50);
                            assert(0 <= amount * factor <= 255 * 7650) by (nonlinear_arith)
                                requires
                                    0 <= amount <= 255,
                                    0 <= factor <= 7650,
                            ;
                            let crowd = #[verifier::truncate] ((amount * factor) as i16);
                            value = step + (#[verifier::truncate] (lost as i16) - crowd);
                        },
                        _ => {
                            let lost = lost_hp_over_20(hp);
                            value = base + (#[verifier::truncate] (lost as i16) + dist * 10);
                        },
                    }
                }
            }
            assert(value == planned_weight(i as int, old(self).cooldown_mask, phase, *hp, dist, summons.queue@, summons.amount_of_mobs));
            self.weight_array.set(i, value);
            i = i + 1;
        }
    }
}

/// The mob a spawn attack summons.
fn mob_of_attack(a: BossAttackType) -> (m: MobType)
    ensures
        m == attack_mob(a),
{
    match a {
        BossAttackType::SpawnEarthElemental => MobType::EarthElemental,
        BossAttackType::SpawnAirElemental => MobType::AirElemental,
        BossAttackType::SpawnFireElemental => MobType::FireElemental,
        BossAttackType::SpawnClayGolem => MobType::ClayGolem,
        BossAttackType::SpawnWaterElemental => MobType::WaterElemental,
        _ => MobType::Mossling,
    }
}

/// Scanning the first `k` weights for the largest: the largest weight so
/// far, the slot holding it (the first that reached it) and the slot that
/// held the record before (`-1` when none did).
pub open spec fn scan_weights(w: Seq<i16>, k: nat) -> (i16, int, int)
    decreases k,
{
    if k == 0 {
        (w[0], 0, -1)
    } else {
        let (largest, p1, p2) = scan_weights(w, (k - 1) as nat);
        if w[k - 1] > largest {
            (w[k - 1], k - 1, p1)
        } else {
            (largest, p1, p2)
        }
    }
}

/// The attack the boss picks: when the dice favour a second choice and there
/// is a runner-up in a slot past the first, the runner-up; else nothing when
/// every weight is negative; else the attack with the largest weight.
pub open spec fn pick_attack_spec(w: Seq<i16>, second_choice: bool) -> Option<BossAttackType> {
    let (largest, p1, p2) = scan_weights(w, w.len());
    if second_choice && p2 > 0 {
        Some(attack_in_slot(p2 as nat))
    } else if largest < 0 {
        None
    } else {
        Some(attack_in_slot(p1 as nat))
    }
}

/// The record of the scan is the largest weight, held by the slot it names.
proof fn lemma_scan_weights(w: Seq<i16>, k: nat)
    requires
        0 < w.len(),
        k <= w.len(),
    ensures
        0 <= scan_weights(w, k).1 < w.len(),
        scan_weights(w, k).0 == w[scan_weights(w, k).1],
        forall|j: int| 0 <= j < k ==> w[j] <= scan_weights(w, k).0,
        -1 <= scan_weights(w, k).2 < scan_weights(w, k).1,
        k > 0 ==> scan_weights(w, k).1 < k,
    decreases k,
{
    if k > 0 {
        lemma_scan_weights(w, (k - 1) as nat);
    }
}

/// Picks the boss's next attack from the planner's weights;
/// `second_choice` is the dice's verdict on taking the runner-up.
pub fn pick_attack(weights: &Vec<i16>, second_choice: bool) -> (r: Option<BossAttackType>)
    requires
        0 < weights@.len() <= ATTACK_COUNT,
    ensures
        r == pick_attack_spec(weights@, second_choice),
        !second_choice ==> (r matches Some(a) ==> attack_slot(a) < weights@.len()
            && weights@[attack_slot(a) as int] >= 0
            && forall|j: int| 0 <= j < weights@.len() ==> #[trigger] weights@[j] <= weights@[attack_slot(a) as int]),
        !second_choice ==> (r is None <==> forall|j: int| 0 <= j < weights@.len() ==> weights@[j] < 0),
{
    let mut pick_1: usize = 0;
    let mut pick_2: i64 = -1;
    let mut largest = weights[0];
    let mut i: usize = 0;
    assert(scan_weights(weights@, 0) == (largest, pick_1 as int, pick_2 as int));
    while i < weights.len()
        invariant
            0 <= i <= weights@.len(),
            weights@.len() <= ATTACK_COUNT,
            0 < weights@.len(),
            scan_weights(weights@, i as nat) == (largest, pick_1 as int, pick_2 as int),
            pick_1 < weights@.len(),
        decreases weights@.len() - i,
    {
        proof {
            lemma_scan_weights(weights@, i as nat);
        }
        if weights[i] > largest {
            largest = weights[i];
            pick_2 = pick_1 as i64;
            pick_1 = i;
        }
        i = i + 1;
    }
    proof {
        lemma_scan_weights(weights@, weights@.len());
        if !second_choice {
            let (l, p1, p2) = scan_weights(weights@, weights@.len());
            assert(attack_slot(attack_in_slot(p1 as nat)) == p1);
        }
    }
    if second_choice && pick_2 > 0 {
        return Some(attack_in_slot_exec(pick_2 as usize));
    }
    if largest < 0 {
        return None;
    }
    Some(attack_in_slot_exec(pick_1))
}

/// Weight above which the boss throws a blank.
pub const BLANK_TRIGGER: i16 = 2500;

/// Weight at which the boss raises a shield.
pub const SHIELD_TRIGGER: i16 = 2500;

impl BossAttackPlanner {
    /// A planner for `n` attacks, all weights zero, every attack ready.
    pub fn new() -> (p: BossAttackPlanner)
        ensures
            p.weight_array@ == Seq::new(12, |i: int| 0i16),
            p.cooldown_mask == 0xfffu32,
    {
        let p = BossAttackPlanner { weight_array: vec![0, 0, 0, 0, 0, 0, 0, 0, 0, 0, 0, 0], cooldown_mask: 0xfff };
        assert(p.weight_array@ =~= Seq::new(12, |i: int| 0i16));
        p
    }

    /// Throws a blank when its weight is high enough (above the trigger),
    /// flipping the blank's cooldown bit; returns whether it was thrown.
    pub fn try_cast_blank(&mut self) -> (cast: bool)
        requires
            old(self).weight_array@.len() == ATTACK_COUNT,
        ensures
            cast == (old(self).weight_array@[8] > BLANK_TRIGGER),
            cast ==> final(self).cooldown_mask == old(self).cooldown_mask ^ (1u32 << 8u32),
            !cast ==> final(self).cooldown_mask == old(self).cooldown_mask,
            final(self).weight_array@ == old(self).weight_array@,
    {
        if self.weight_array[8] > BLANK_TRIGGER {
            self.cooldown_mask = self.cooldown_mask ^ (1u32 << 8u32);
            true
        } else {
            false
        }
    }

    /// Raises a shield when its weight reaches the trigger, flipping the
    /// shield's cooldown bit; returns whether it was raised.
    pub fn try_cast_shield(&mut self) -> (cast: bool)
        requires
            old(self).weight_array@.len() == ATTACK_COUNT,
        ensures
            cast == (old(self).weight_array@[4] >= SHIELD_TRIGGER),
            cast ==> final(self).cooldown_mask == old(self).cooldown_mask ^ (1u32 << 4u32),
            !cast ==> final(self).cooldown_mask == old(self).cooldown_mask,
            final(self).weight_array@ == old(self).weight_array@,
    {
        if self.weight_array[4] >= SHIELD_TRIGGER {
            self.cooldown_mask = self.cooldown_mask ^ (1u32 << 4u32);
            true
        } else {
            false
        }
    }

    /// After the warning before an attack: flips the attack's cooldown bit.
    pub fn start_cooldown(&mut self, attack: BossAttackType)
        ensures
            final(self).cooldown_mask == old(self).cooldown_mask ^ (1u32 << (attack_slot(attack) as u32)),
            final(self).weight_array@ == old(self).weight_array@,
    {
        let s = attack.slot() as u32;
        self.cooldown_mask = self.cooldown_mask ^ (1u32 << s);
    }

    /// Which attack cooldowns tick this frame: every slot but the first while
    /// the first's bit is set (the game compares the masked bit with one).
    pub fn cooldowns_to_tick(&self, n: usize) -> (r: Vec<bool>)
        requires
            n <= 32,
        ensures
            r@.len() == n,
            forall|i: int| 0 <= i < n ==> r@[i] == ((self.cooldown_mask & (1u32 << (i as u32))) != 1u32),
    {
        let mut r: Vec<bool> = Vec::new();
        let mut i: usize = 0;
        while i < n
            invariant
                0 <= i <= n,
                n <= 32,
                r@.len() == i,
                forall|j: int| 0 <= j < i ==> r@[j] == ((self.cooldown_mask & (1u32 << (j as u32))) != 1u32),
            decreases n - i,
        {
            let ii = i as u32;
            r.push((self.cooldown_mask & (1u32 << ii)) != 1u32);
            i = i + 1;
        }
        r
    }

    /// Marks ready every attack whose cooldown just finished.
    pub fn mark_ready(&mut self, finished: &Vec<bool>)
        requires
            finished@.len() <= 32,
        ensures
            final(self).weight_array@ == old(self).weight_array@,
            forall|i: u32| #![trigger (final(self).cooldown_mask & (1u32 << i))] i < 32 ==> ((final(self).cooldown_mask & (1u32 << i)) != 0
                <==> ((old(self).cooldown_mask & (1u32 << i)) != 0 || (i < finished@.len() && finished@[i as int]))),
    {
        let mut i: usize = 0;
        while i < finished.len()
            invariant
                0 <= i <= finished@.len(),
                finished@.len() <= 32,
                self.weight_array@ == old(self).weight_array@,
                forall|k: u32| #![trigger (self.cooldown_mask & (1u32 << k))] k < 32 ==> ((self.cooldown_mask & (1u32 << k)) != 0
                    <==> ((old(self).cooldown_mask & (1u32 << k)) != 0 || (k < i && finished@[k as int]))),
            decreases finished@.len() - i,
        {
            if finished[i] {
                let ii = i as u32;
                let old_mask = self.cooldown_mask;
                let new_mask = old_mask | (1u32 << ii);
                assert(forall|k: u32| k < 32 ==> ((new_mask & (1u32 << k)) != 0 <==> ((old_mask & (1u32 << k)) != 0 || k == ii))) by (bit_vector)
                    requires
                        new_mask == old_mask | (1u32 << ii),
                        ii < 32,
                ;
                self.cooldown_mask = new_mask;
            }
            i = i + 1;
        }
    }
}

/// The cooldown of slot `i` runs this frame: the game compares the slot's
/// masked bit with one, so every slot but the first always runs, and the
/// first runs while its bit is clear.
pub open spec fn cooldown_runs(mask: u32, i: int) -> bool {
    (mask & (1u32 << (i as u32))) != 1u32
}

impl BossAttackPlanner {
    /// Runs the attack cooldowns for `delta` milliseconds: each cooldown
    /// that runs this frame (see `cooldown_runs`) ticks, and the attack of
    /// each one that finishes becomes ready.
    pub fn tick_every_spell_cooldown(&mut self, cooldowns: &mut Vec<RepeatTimer>, delta: u32)
        requires
            old(cooldowns)@.len() <= 32,
            forall|i: int| 0 <= i < old(cooldowns)@.len() ==> (#[trigger] old(cooldowns)@[i]).duration_ms > 0,
        ensures
            final(self).weight_array@ == old(self).weight_array@,
            final(cooldowns)@.len() == old(cooldowns)@.len(),
            forall|i: int| 0 <= i < old(cooldowns)@.len() ==> #[trigger] final(cooldowns)@[i] == (if cooldown_runs(
                old(self).cooldown_mask,
                i,
            ) {
                ticked(old(cooldowns)@[i], delta)
            } else {
                old(cooldowns)@[i]
            }),
            forall|i: u32| #![trigger (final(self).cooldown_mask & (1u32 << i))] i < 32 ==> ((final(self).cooldown_mask & (1u32 << i)) != 0
                <==> ((old(self).cooldown_mask & (1u32 << i)) != 0 || (i < old(cooldowns)@.len() && cooldown_runs(
                old(self).cooldown_mask,
                i as int,
            ) && finishes(old(cooldowns)@[i as int], delta)))),
    {
        let n = cooldowns.len();
        let runs = self.cooldowns_to_tick(n);
        let mut finished: Vec<bool> = Vec::new();
        let mut i: usize = 0;
        while i < n
            invariant
                n == old(cooldowns)@.len(),
                n <= 32,
                i <= n,
                runs@.len() == n,
                forall|j: int| 0 <= j < n ==> runs@[j] == cooldown_runs(self.cooldown_mask, j),
                self.cooldown_mask == old(self).cooldown_mask,
                self.weight_array@ == old(self).weight_array@,
                cooldowns@.len() == n,
                finished@.len() == i,
                forall|j: int| 0 <= j < n ==> (#[trigger] old(cooldowns)@[j]).duration_ms > 0,
                forall|j: int| 0 <= j < i ==> #[trigger] finished@[j] == (cooldown_runs(old(self).cooldown_mask, j) && finishes(
                    old(cooldowns)@[j],
                    delta,
                )),
                forall|j: int| 0 <= j < n ==> #[trigger] cooldowns@[j] == (if j < i && cooldown_runs(old(self).cooldown_mask, j) {
                    ticked(old(cooldowns)@[j], delta)
                } else {
                    old(cooldowns)@[j]
                }),
            decreases n - i,
        {
            if runs[i] {
                let mut t = cooldowns[i];
                let f = t.tick(delta);
                cooldowns.set(i, t);
                finished.push(f);
            } else {
                finished.push(false);
            }
            i = i + 1;
        }
        self.mark_ready(&finished);
    }
}

/// The cooldown of each of the koldun's attacks, by slot, in milliseconds:
/// 7.5 s for its mega stun, 6.1 s for summoning a clay golem or an air
/// elemental, 6.15 s for its projectile pattern and 4.05 s for the others.
pub open spec fn koldun_cooldown_ms(i: int) -> u32 {
    if i == 11 {
        7500
    } else if i == 10 || i == 1 {
        6100
    } else if i == 3 {
        6150
    } else {
        4050
    }
}

/// What the boss fight keeps of the boss: its attack planner with the
/// cooldown of each attack, the pause between two attacks, how many tiles
/// away it teleports and how often, its summons and its phases.
pub struct BossKit {
    pub planner: BossAttackPlanner,
    pub cooldowns: Vec<RepeatTimer>,
    pub between_attacks: RepeatTimer,
    pub teleport_tiles: u8,
    pub teleport_timer: RepeatTimer,
    pub summons: SummonQueue,
    pub phases: PhaseManager,
}

impl BossKit {
    /// The koldun: all attack weights zero and every attack ready, the
    /// cooldowns of `koldun_cooldown_ms`, 3 s between attacks, a teleport of
    /// 5 tiles every 5 s, twenty empty summon places, and its phases.
    pub fn koldun() -> (k: BossKit)
        ensures
            k.planner.weight_array@ == Seq::new(12, |i: int| 0i16),
            k.planner.cooldown_mask == 0xfffu32,
            k.cooldowns@.len() == ATTACK_COUNT,
            forall|i: int| 0 <= i < 12 ==> #[trigger] k.cooldowns@[i] == (RepeatTimer { duration_ms: koldun_cooldown_ms(i), elapsed_ms: 0 }),
            k.between_attacks == (RepeatTimer { duration_ms: 3000, elapsed_ms: 0 }),
            k.teleport_tiles == 5,
            k.teleport_timer == (RepeatTimer { duration_ms: 5000, elapsed_ms: 0 }),
            k.summons@.queue == Seq::new(20, |i: int| empty_unit()),
            k.summons@.amount == 0,
            k.summons@.max == 20,
            k.phases.current_phase == 3,
            k.phases.max_phase == 3,
            k.phases.phase_change_hp_percent@ == seq![50i32, 20i32],
    {
        let usual = RepeatTimer::new(4050);
        let summon = RepeatTimer::new(6100);
        let cooldowns = vec![
            usual,
            summon,
            usual,
            RepeatTimer::new(6150),
            usual,
            usual,
            usual,
            usual,
            usual,
            usual,
            summon,
            RepeatTimer::new(7500),
        ];
        assert forall|i: int| 0 <= i < 12 implies #[trigger] cooldowns@[i] == RepeatTimer { duration_ms: koldun_cooldown_ms(i), elapsed_ms: 0 } by {
            assert(i == 0 || i == 1 || i == 2 || i == 3 || i == 4 || i == 5 || i == 6 || i == 7 || i == 8 || i == 9 || i == 10 || i == 11);
        }
        BossKit {
            planner: BossAttackPlanner::new(),
            cooldowns,
            between_attacks: RepeatTimer::new(3000),
            teleport_tiles: 5,
            teleport_timer: RepeatTimer::new(5000),
            summons: SummonQueue::new(20),
            phases: PhaseManager::koldun(),
        }
    }
}

/// The boss's phases: the current one, the last one, and for each phase
/// before the last the share of its maximum hit points (in whole percent)
/// at or below which the next phase begins.
pub struct PhaseManager {
    pub current_phase: u8,
    pub max_phase: u8,
    pub phase_change_hp_percent: Vec<i32>,
}

/// Hit points at or below which a phase ends: `percent` of `max`, rounded
/// towards zero.
pub open spec fn phase_threshold(max: i32, percent: i32) -> int {
    div_trunc(max * percent, 100)
}

/// The out-of-order attacks the boss fires when it enters a new phase.
pub open spec fn phase_change_attacks() -> Seq<BossAttackType> {
    seq![BossAttackType::Blank, BossAttackType::Blank, BossAttackType::Blank]
}

impl PhaseManager {
    /// The phases of the koldun: it starts in its third and last phase; its
    /// first two phases would end at half and a fifth of its hit points.
    pub fn koldun() -> (p: PhaseManager)
        ensures
            p.current_phase == 3,
            p.max_phase == 3,
            p.phase_change_hp_percent@ == seq![50i32, 20i32],
    {
        let p = PhaseManager { current_phase: 3, max_phase: 3, phase_change_hp_percent: vec![50, 20] };
        assert(p.phase_change_hp_percent@ =~= seq![50i32, 20i32]);
        p
    }

    /// Moves the boss to its next phase when its hit points have fallen to
    /// the current phase's threshold. A koldun leaving its first phase gets
    /// six summon places, five of them in use. Returns the attacks to fire
    /// out of order when the phase changed.
    pub fn switch_phase(&mut self, hp: &Health, is_koldun: bool, summons: &mut SummonQueue) -> (r: Option<Vec<BossAttackType>>)
        requires
            old(self).current_phase < old(self).max_phase ==> {
                &&& old(self).current_phase >= 1
                &&& old(self).current_phase - 1 < old(self).phase_change_hp_percent@.len()
            },
        ensures
            final(self).max_phase == old(self).max_phase,
            final(self).phase_change_hp_percent@ == old(self).phase_change_hp_percent@,
            ({
                let switched = old(self).current_phase < old(self).max_phase
                    && hp.current <= phase_threshold(hp.max, old(self).phase_change_hp_percent@[old(self).current_phase - 1]);
                &&& switched ==> (final(self).current_phase == old(self).current_phase + 1
                    && (r matches Some(v) && v@ == phase_change_attacks()))
                &&& !switched ==> final(self).current_phase == old(self).current_phase && r is None
                &&& (switched && is_koldun && old(self).current_phase == 1) ==> final(summons)@.max == 6
                    && final(summons)@.amount == 5 && final(summons)@.queue == resized(old(summons)@.queue, 6)
                &&& !(switched && is_koldun && old(self).current_phase == 1) ==> final(summons)@ == old(summons)@
            }),
    {
        if self.current_phase >= self.max_phase {
            return None;
        }
        let pct = self.phase_change_hp_percent[(self.current_phase - 1) as usize] as i64;
        let m = hp.max as i64;
        assert(-0x4000_0000_0000_0000 <= m * pct <= 0x4000_0000_0000_0000) by (nonlinear_arith)
            requires
                -0x8000_0000 <= m < 0x8000_0000,
                -0x8000_0000 <= pct < 0x8000_0000,
        ;
        let product = m * pct;
        let threshold = product / 100;
        if (hp.current as i64) <= threshold {
            if is_koldun && self.current_phase == 1 {
                summons.reshape(6, 5);
            }
            self.current_phase = self.current_phase + 1;
            Some(vec![BossAttackType::Blank, BossAttackType::Blank, BossAttackType::Blank])
        } else {
            None
        }
    }
}

/// Lowest and one past the highest tile of the boss's walls of projectiles.
pub const WALL_LOW: i32 = 9;
pub const WALL_HIGH: i32 = 24;

/// Whether the first wall has a projectile at tile `i`: every tile of the
/// wall's span but the gap, which the last phase widens by a tile on each side.
pub open spec fn first_wall_has(i: int, gap: int, phase: u8) -> bool {
    !(i == gap || (phase == 3 && (i == gap - 1 || i == gap + 1)))
}

/// Outside the last phase the first wall has a projectile on every tile but
/// the gap itself; in the last phase the opening is three tiles wide, the
/// gap and one tile on each side of it.
pub proof fn lemma_wall_gap(i: int, gap: int, phase: u8)
    ensures
        phase != 3 ==> (first_wall_has(i, gap, phase) <==> i != gap),
        phase == 3 ==> (first_wall_has(i, gap, phase) <==> (i < gap - 1 || i > gap + 1)),
{
}

/// Where the boss's walls of projectiles are solid: for each tile of the
/// wall's span, whether the first wall and (in the last phase) the second
/// wall have a projectile there. The second wall is only built where the
/// first one is, and has its own gap.
pub fn wall_layout(gap: i32, second_gap: i32, phase: u8) -> (r: Vec<(i32, bool, bool)>)
    requires
        WALL_LOW <= gap < WALL_HIGH,
    ensures
        r@.len() == WALL_HIGH - WALL_LOW,
        forall|k: int| 0 <= k < r@.len() ==> {
            let i = WALL_LOW + k;
            &&& (#[trigger] r@[k]).0 == i
            &&& r@[k].1 == first_wall_has(i, gap as int, phase)
            &&& r@[k].2 == (first_wall_has(i, gap as int, phase) && phase == 3 && i != second_gap)
        },
        phase != 3 ==> forall|k: int| 0 <= k < r@.len() ==> (#[trigger] r@[k]).1 == (WALL_LOW + k != gap) && !r@[k].2,
        phase == 3 ==> forall|k: int| 0 <= k < r@.len() ==> (#[trigger] r@[k]).1 == (WALL_LOW + k < gap - 1 || WALL_LOW + k
            > gap + 1),
        phase == 3 ==> forall|k: int| 0 <= k < r@.len() ==> (#[trigger] r@[k]).2 == ((WALL_LOW + k < gap - 1 || WALL_LOW + k
            > gap + 1) && WALL_LOW + k != second_gap),
{
    let mut r: Vec<(i32, bool, bool)> = Vec::new();
    let mut i: i32 = WALL_LOW;
    while i < WALL_HIGH
        invariant
            WALL_LOW <= i <= WALL_HIGH,
            WALL_LOW <= gap < WALL_HIGH,
            r@.len() == i - WALL_LOW,
            forall|k: int| 0 <= k < r@.len() ==> {
                let t = WALL_LOW + k;
                &&& (#[trigger] r@[k]).0 == t
                &&& r@[k].1 == first_wall_has(t, gap as int, phase)
                &&& r@[k].2 == (first_wall_has(t, gap as int, phase) && phase == 3 && t != second_gap)
            },
        decreases WALL_HIGH - i,
    {
        let first = !(i == gap || (phase == 3 && (i == gap - 1 || i == gap + 1)));
        let second = first && phase == 3 && i != second_gap;
        r.push((i, first, second));
        i = i + 1;
    }
    r
}

/// The four directions a wall can come from: right, left, up, down.
#[derive(Clone, Copy, Debug, PartialEq, Eq, Structural)]
pub enum WallDirection {
    Right,
    Left,
    Up,
    Down,
}

/// The preference for each direction before the dice: the two directions
/// away from the player (seen from the boss) weigh 40, the others 20.
pub open spec fn direction_bias(player_left_of_boss: bool, player_below_boss: bool) -> Seq<int> {
    seq![
        if player_left_of_boss { 40int } else { 20int },
        if player_left_of_boss { 20int } else { 40int },
        if player_below_boss { 40int } else { 20int },
        if player_below_boss { 20int } else { 40int },
    ]
}

/// The direction with a given index.
pub open spec fn direction_at(k: int) -> WallDirection {
    if k == 0 { WallDirection::Right } else if k == 1 { WallDirection::Left } else if k == 2 { WallDirection::Up } else { WallDirection::Down }
}

/// Picks the direction of a wall: each direction's preference is multiplied
/// by its roll, and the first direction (right, left, up, down) with the
/// highest score wins.
pub fn pick_direction(player_left_of_boss: bool, player_below_boss: bool, rolls: [u32; 4]) -> (d: WallDirection)
    requires
        forall|k: int| 0 <= k < 4 ==> rolls@[k] < 100,
    ensures
        exists|k: int| 0 <= k < 4 && d == direction_at(k) && (forall|j: int| 0 <= j < 4 ==>
            #[trigger] direction_bias(player_left_of_boss, player_below_boss)[j] * rolls@[j]
                <= direction_bias(player_left_of_boss, player_below_boss)[k] * rolls@[k]) && (forall|j: int| 0 <= j < k ==>
            #[trigger] direction_bias(player_left_of_boss, player_below_boss)[j] * rolls@[j]
                < direction_bias(player_left_of_boss, player_below_boss)[k] * rolls@[k]),
{
    let w0: u32 = if player_left_of_boss { 40 } else { 20 };
    let w1: u32 = if player_left_of_boss { 20 } else { 40 };
    let w2: u32 = if player_below_boss { 40 } else { 20 };
    let w3: u32 = if player_below_boss { 20 } else { 40 };
    let s0 = w0 * rolls[0];
    let s1 = w1 * rolls[1];
    let s2 = w2 * rolls[2];
    let s3 = w3 * rolls[3];
    let ghost bias = direction_bias(player_left_of_boss, player_below_boss);
    assert(bias[0] == w0 && bias[1] == w1 && bias[2] == w2 && bias[3] == w3);
    let mut best: usize = 0;
    let mut best_score = s0;
    if s1 > best_score {
        best = 1;
        best_score = s1;
    }
    if s2 > best_score {
        best = 2;
        best_score = s2;
    }
    if s3 > best_score {
        best = 3;
        best_score = s3;
    }
    let d = if best == 0 { WallDirection::Right } else if best == 1 { WallDirection::Left } else if best == 2 { WallDirection::Up } else { WallDirection::Down };
    assert(d == direction_at(best as int));
    assert(bias[best as int] * rolls@[best as int] == best_score);
    d
}

/// How far above the boss, in world units, the row of summoned minions runs.
pub const SUMMON_ROW_RISE: i32 = 32;

/// The minions a summoning attack calls: the mob, how many, and where the
/// first appears and the spacing (along a row `SUMMON_ROW_RISE` above the
/// boss, in world units;
/// earth elementals appear at `earth_elemental_points` instead and fire
/// elementals at `fire_elemental_offsets` around the player).
pub open spec fn summon_plan_spec(a: BossAttackType) -> Option<(MobType, int, int, int)> {
    match a {
        BossAttackType::SpawnAirElemental => Some((MobType::AirElemental, 6, -64, 16)),
        BossAttackType::SpawnClayGolem => Some((MobType::ClayGolem, 2, -64, 128)),
        BossAttackType::SpawnWaterElemental => Some((MobType::WaterElemental, 3, -64, 64)),
        BossAttackType::SpawnEarthElemental => Some((MobType::EarthElemental, 4, 0, 0)),
        BossAttackType::SpawnFireElemental => Some((MobType::FireElemental, 4, 0, 0)),
        _ => None,
    }
}

/// The minions a summoning attack calls (see `summon_plan_spec`).
pub fn summon_plan(a: BossAttackType) -> (r: Option<(MobType, u32, i32, i32)>)
    ensures
        match summon_plan_spec(a) {
            None => r is None,
            Some(p) => r matches Some(q) && q.0 == p.0 && q.1 == p.1 && q.2 == p.2 && q.3 == p.3,
        },
{
    match a {
        BossAttackType::SpawnAirElemental => Some((MobType::AirElemental, 6, -64, 16)),
        BossAttackType::SpawnClayGolem => Some((MobType::ClayGolem, 2, -64, 128)),
        BossAttackType::SpawnWaterElemental => Some((MobType::WaterElemental, 3, -64, 64)),
        BossAttackType::SpawnEarthElemental => Some((MobType::EarthElemental, 4, 0, 0)),
        BossAttackType::SpawnFireElemental => Some((MobType::FireElemental, 4, 0, 0)),
        _ => None,
    }
}

/// Where the earth elementals of a summoning appear: the tiles six tiles
/// off the middle of the room on both axes, in world units, in the order
/// lower left, lower right, upper left, upper right.
pub fn earth_elemental_points() -> (r: Vec<(i32, i32)>)
    ensures
        r@ == seq![(320i32, 320i32), (704i32, 320i32), (320i32, 704i32), (704i32, 704i32)],
{
    let r = vec![(320, 320), (704, 320), (320, 704), (704, 704)];
    assert(r@ =~= seq![(320i32, 320i32), (704i32, 320i32), (320i32, 704i32), (704i32, 704i32)]);
    r
}

/// Where the fire elementals of a summoning appear around the player, in
/// world units: 64 away, a quarter turn apart, starting to the right and
/// turning counter-clockwise.
pub fn fire_elemental_offsets() -> (r: Vec<(i32, i32)>)
    ensures
        r@ == seq![(64i32, 0i32), (0i32, 64i32), (-64i32, 0i32), (0i32, -64i32)],
{
    let r = vec![(64, 0), (0, 64), (-64, 0), (0, -64)];
    assert(r@ =~= seq![(64i32, 0i32), (0i32, 64i32), (-64i32, 0i32), (0i32, -64i32)]);
    r
}

/// Number of fast piercing bolts: two, five in the last phase.
pub fn fast_pierce_count(phase: u8) -> (n: u32)
    ensures
        n == (if phase == 3 { 5int } else { 2int }),
{
    let mut n: u32 = 2;
    if phase == 3 {
        n = n + 3;
    }
    n
}

/// Where the `i`-th block of a wall coming from `d` stands, in world units:
/// a wall from below runs along row `ROOM_SIZE / 2 + 7`,
/// from above along row `ROOM_SIZE / 2 - 7`, from the left along column
/// `ROOM_SIZE / 2 + 7`, from the right along column `ROOM_SIZE / 2 - 7`.
pub fn wall_pos(d: WallDirection, i: i32) -> (p: (i32, i32))
    requires
        -0x100_0000 <= i <= 0x100_0000,
    ensures
        (p.0 as int, p.1 as int) == (match d {
            WallDirection::Down => (i * 32, (crate::world::ROOM_SIZE / 2 + 7) * 32),
            WallDirection::Up => (i * 32, (crate::world::ROOM_SIZE / 2 - 7) * 32),
            WallDirection::Left => ((crate::world::ROOM_SIZE / 2 + 7) * 32, i * 32),
            WallDirection::Right => ((crate::world::ROOM_SIZE / 2 - 7) * 32, i * 32),
        }),
{
    let far = (crate::world::ROOM_SIZE / 2 + 7) * 32;
    let near = (crate::world::ROOM_SIZE / 2 - 7) * 32;
    match d {
        WallDirection::Down => (i * 32, far),
        WallDirection::Up => (i * 32, near),
        WallDirection::Left => (far, i * 32),
        WallDirection::Right => (near, i * 32),
    }
}

/// Attacks the boss fires out of its usual order (on entering a phase),
/// the last one first.
pub struct OutOfOrderAttackQueue {
    pub queue: Vec<BossAttackType>,
}

impl OutOfOrderAttackQueue {
    /// The attacks to fire, the last one first.
    pub fn new(attacks: Vec<BossAttackType>) -> (q: OutOfOrderAttackQueue)
        ensures
            q.queue@ == attacks@,
    {
        OutOfOrderAttackQueue { queue: attacks }
    }

    /// The next attack to fire when the timer rings:
    /// the last one queued, which leaves the queue; `None` when the queue
    /// is empty (the boss then drops it).
    pub fn next_attack(&mut self) -> (a: Option<BossAttackType>)
        ensures
            old(self).queue@.len() == 0 ==> a is None && final(self).queue@ == old(self).queue@,
            old(self).queue@.len() > 0 ==> a == Some(old(self).queue@.last()) && final(self).queue@
                == old(self).queue@.drop_last(),
    {
        self.queue.pop()
    }
}

} // verus!
