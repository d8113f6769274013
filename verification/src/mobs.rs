use vstd::prelude::*;
use crate::dice::roll_below;
use crate::elements::ElementType;

verus! {

/// Every kind of mob.
#[derive(Clone, Copy, Debug, PartialEq, Eq, Structural)]
pub enum MobType {
    Knight,
    Mossling,
    FireMage,
    WaterMage,
    JungleTurret,
    Necromancer,
    Koldun,
    ClayGolem,
    WaterElemental,
    FireElemental,
    SkeletWarrior,
    SkeletMage,
    SkeletRanger,
    EarthElemental,
    AirElemental,
    Thief,
}

/// The mobs that do not move (turrets and mages): they hold the map tile they
/// stand on.
pub open spec fn is_static_mob_spec(m: MobType) -> bool {
    m == MobType::JungleTurret || m == MobType::FireMage || m == MobType::WaterMage || m
        == MobType::EarthElemental
}

/// Whether a mob does not move and holds its map tile.
pub fn is_static_mob(m: MobType) -> (r: bool)
    ensures
        r == is_static_mob_spec(m),
{
    match m {
        MobType::JungleTurret | MobType::FireMage | MobType::WaterMage | MobType::EarthElemental => true,
        _ => false,
    }
}

/// The tag under which the save file records that a mob was seen (the
/// mob's portrait file); empty for mobs without a portrait.
pub fn mob_unlock_tag(m: MobType) -> (tag: &'static str)
    ensures
        m == MobType::Knight ==> tag@ == "knight.png"@,
        m == MobType::Mossling ==> tag@ == "mossling.png"@,
        m == MobType::FireMage ==> tag@ == "fire_mage.png"@,
        m == MobType::WaterMage ==> tag@ == "water_mage.png"@,
        m == MobType::JungleTurret ==> tag@ == "plant.png"@,
        m == MobType::Necromancer ==> tag@ == "necromancer.png"@,
        m == MobType::ClayGolem ==> tag@ == "golem.png"@,
        m == MobType::WaterElemental ==> tag@ == "water_elemental.png"@,
        m == MobType::FireElemental ==> tag@ == "fire_elemental.png"@,
        m == MobType::EarthElemental ==> tag@ == "earth_elemental.png"@,
        m == MobType::AirElemental ==> tag@ == "air_elemental.png"@,
        m == MobType::Thief ==> tag@ == "lurker.png"@,
        m == MobType::Koldun || m == MobType::SkeletWarrior || m == MobType::SkeletMage || m
            == MobType::SkeletRanger ==> tag@ == ""@,
{
    match m {
        MobType::Knight => "knight.png",
        MobType::Mossling => "mossling.png",
        MobType::FireMage => "fire_mage.png",
        MobType::WaterMage => "water_mage.png",
        MobType::JungleTurret => "plant.png",
        MobType::Necromancer => "necromancer.png",
        MobType::Koldun => "",
        MobType::ClayGolem => "golem.png",
        MobType::WaterElemental => "water_elemental.png",
        MobType::FireElemental => "fire_elemental.png",
        MobType::SkeletWarrior => "",
        MobType::SkeletMage => "",
        MobType::SkeletRanger => "",
        MobType::EarthElemental => "earth_elemental.png",
        MobType::AirElemental => "air_elemental.png",
        MobType::Thief => "lurker.png",
    }
}

/// The mob a generic spawn roll in `0..=5` names.
pub open spec fn generic_mob_spec(roll: u32) -> MobType {
    if roll == 1 { MobType::Knight }
    else if roll == 2 { MobType::FireMage }
    else if roll == 3 { MobType::WaterMage }
    else if roll == 4 { MobType::JungleTurret }
    else if roll == 5 { MobType::Necromancer }
    else { MobType::Mossling }
}

/// The mobs of the desert chapter.
pub open spec fn desert_mobs() -> Seq<MobType> {
    seq![MobType::Knight, MobType::FireMage, MobType::EarthElemental, MobType::WaterElemental, MobType::Thief]
}

/// The mobs of the jungle chapter.
pub open spec fn jungle_mobs() -> Seq<MobType> {
    seq![MobType::Mossling, MobType::JungleTurret, MobType::WaterMage, MobType::AirElemental, MobType::ClayGolem]
}

/// The mobs of the inferno chapter.
pub open spec fn inferno_mobs() -> Seq<MobType> {
    seq![MobType::Necromancer, MobType::FireMage, MobType::Knight, MobType::FireElemental]
}

/// The pool a chapter draws its mobs from: chapters cycle through desert,
/// jungle and inferno; every fourth chapter draws from the generic roll
/// (`None` here).
pub open spec fn chapter_pool(chapter: u8) -> Option<Seq<MobType>> {
    if chapter % 4 == 1 {
        Some(desert_mobs())
    } else if chapter % 4 == 2 {
        Some(jungle_mobs())
    } else if chapter % 4 == 3 {
        Some(inferno_mobs())
    } else {
        None
    }
}

/// The mob a chapter spawns for a roll: an index into the chapter's pool, or
/// the generic table for every fourth chapter.
pub open spec fn chapter_mob_spec(chapter: u8, roll: u32) -> MobType {
    match chapter_pool(chapter) {
        Some(pool) => pool[roll as int],
        None => generic_mob_spec(roll),
    }
}

/// Size of the table a chapter's roll is drawn from.
pub open spec fn chapter_roll_bound(chapter: u8) -> u32 {
    match chapter_pool(chapter) {
        Some(pool) => pool.len() as u32,
        None => 6,
    }
}

/// Size of the table a chapter's spawn roll is drawn from.
pub fn chapter_pool_size(chapter: u8) -> (n: u32)
    ensures
        n == chapter_roll_bound(chapter),
        n > 0,
{
    let c = chapter % 4;
    if c == 1 {
        5
    } else if c == 2 {
        5
    } else if c == 3 {
        4
    } else {
        6
    }
}

/// The mob a chapter spawns for a roll below the size of its table.
pub fn chapter_mob(chapter: u8, roll: u32) -> (m: MobType)
    requires
        roll < chapter_roll_bound(chapter),
    ensures
        m == chapter_mob_spec(chapter, roll),
{
    let c = chapter % 4;
    if c == 1 {
        if roll == 0 { MobType::Knight }
        else if roll == 1 { MobType::FireMage }
        else if roll == 2 { MobType::EarthElemental }
        else if roll == 3 { MobType::WaterElemental }
        else { MobType::Thief }
    } else if c == 2 {
        if roll == 0 { MobType::Mossling }
        else if roll == 1 { MobType::JungleTurret }
        else if roll == 2 { MobType::WaterMage }
        else if roll == 3 { MobType::AirElemental }
        else { MobType::ClayGolem }
    } else if c == 3 {
        if roll == 0 { MobType::Necromancer }
        else if roll == 1 { MobType::FireMage }
        else if roll == 2 { MobType::Knight }
        else { MobType::FireElemental }
    } else {
        if roll == 1 { MobType::Knight }
        else if roll == 2 { MobType::FireMage }
        else if roll == 3 { MobType::WaterMage }
        else if roll == 4 { MobType::JungleTurret }
        else if roll == 5 { MobType::Necromancer }
        else { MobType::Mossling }
    }
}

/// Draws the mob spawned at a marked spawn point of the given chapter.
pub fn random_chapter_mob(chapter: u8) -> (m: MobType)
    ensures
        exists|roll: u32| roll < chapter_roll_bound(chapter) && m == #[trigger] chapter_mob_spec(chapter, roll),
{
    let n = chapter_pool_size(chapter);
    let roll = roll_below(n);
    chapter_mob(chapter, roll)
}

/// How many mobs a level of the given chapter places: between `1 + 5c` and
/// `4 + 5c` for chapter `c`, drawn by `roll` in `0..4`, except that every
/// fourth chapter (the boss chapters) places `c / 4`.
pub open spec fn mobs_for_chapter_spec(chapter: u8, roll: u32) -> int {
    if chapter % 4 == 0 {
        chapter as int / 4
    } else {
        1 + 5 * chapter + roll
    }
}

/// The number of mobs a level places, for a roll in `0..4`.
pub fn mobs_for_chapter(chapter: u8, roll: u32) -> (n: u16)
    requires
        roll < 4,
    ensures
        n == mobs_for_chapter_spec(chapter, roll),
{
    if chapter % 4 == 0 {
        (chapter / 4) as u16
    } else {
        1 + 5 * (chapter as u16) + (roll as u16)
    }
}

/// Draws the number of mobs a level of the given chapter places.
pub fn roll_mobs_for_chapter(chapter: u8) -> (n: u16)
    ensures
        exists|roll: u32| roll < 4 && n == #[trigger] mobs_for_chapter_spec(chapter, roll),
{
    let roll = roll_below(4);
    mobs_for_chapter(chapter, roll)
}

/// How a mob's body reacts to physics.
#[derive(Clone, Copy, Debug, PartialEq, Eq, Structural)]
pub enum BodyKind {
    Dynamic,
    Static,
    Kinematic,
}

/// Base numbers of a mob: hit points, damage on contact, experience orbs it
/// drops, its body and the resistance per element (fire, water, earth, air,
/// steam).
#[derive(Clone, Copy, Debug)]
pub struct MobProfile {
    pub health: i32,
    pub contact_damage: i32,
    pub orbs: u32,
    pub body: BodyKind,
    pub resistance: [i16; 5],
}

/// The base numbers of every mob that has them (the skeletons have none).
pub open spec fn mob_profile_spec(m: MobType) -> Option<(int, int, int, BodyKind, Seq<i16>)> {
    match m {
        MobType::Knight => Some((100, 20, 3, BodyKind::Dynamic, seq![0i16, 0, 0, 0, 0])),
        MobType::Mossling => Some((100, 20, 3, BodyKind::Dynamic, seq![0i16, 15, 15, 0, 0])),
        MobType::FireMage => Some((80, 20, 3, BodyKind::Static, seq![80i16, 0, 0, 0, 0])),
        MobType::WaterMage => Some((80, 20, 3, BodyKind::Static, seq![0i16, 80, 0, 0, 0])),
        MobType::JungleTurret => Some((200, 20, 3, BodyKind::Static, seq![0i16, 60, 60, 0, 0])),
        MobType::Necromancer => Some((140, 20, 5, BodyKind::Dynamic, seq![0i16, 0, 30, 0, 0])),
        MobType::Koldun => Some((3000, 40, 100, BodyKind::Dynamic, seq![20i16, 20, 20, 20, 20])),
        MobType::ClayGolem => Some((200, 20, 8, BodyKind::Dynamic, seq![40i16, 0, 40, 0, 0])),
        MobType::WaterElemental => Some((120, 20, 3, BodyKind::Dynamic, seq![0i16, 80, 0, 0, 0])),
        MobType::FireElemental => Some((90, 30, 3, BodyKind::Dynamic, seq![80i16, 0, 0, 0, 0])),
        MobType::EarthElemental => Some((80, 20, 3, BodyKind::Kinematic, seq![0i16, 0, 80, 0, 0])),
        MobType::AirElemental => Some((30, 1, 3, BodyKind::Dynamic, seq![0i16, 0, 0, 80, 0])),
        MobType::Thief => Some((100, 20, 1, BodyKind::Dynamic, seq![30i16, 30, 30, 30, 0])),
        _ => None,
    }
}

/// The elements a mob resists, in the order its resistance lists them.
pub open spec fn mob_resisted_spec(m: MobType) -> Seq<ElementType> {
    match m {
        MobType::Mossling => seq![ElementType::Earth, ElementType::Water],
        MobType::FireMage => seq![ElementType::Fire],
        MobType::WaterMage => seq![ElementType::Water],
        MobType::JungleTurret => seq![ElementType::Earth, ElementType::Water],
        MobType::Necromancer => seq![ElementType::Earth],
        MobType::Koldun => seq![ElementType::Earth, ElementType::Air, ElementType::Fire, ElementType::Water],
        MobType::ClayGolem => seq![ElementType::Fire, ElementType::Earth],
        MobType::WaterElemental => seq![ElementType::Water],
        MobType::FireElemental => seq![ElementType::Fire],
        MobType::EarthElemental => seq![ElementType::Earth],
        MobType::AirElemental => seq![ElementType::Air],
        MobType::Thief => seq![ElementType::Earth, ElementType::Air, ElementType::Fire, ElementType::Water],
        _ => Seq::<ElementType>::empty(),
    }
}

/// The base numbers of a mob, `None` for the skeletons, which the game
/// spawns without any.
pub fn mob_profile(m: MobType) -> (r: Option<(MobProfile, Vec<ElementType>)>)
    ensures
        match mob_profile_spec(m) {
            None => r is None,
            Some(t) => r matches Some(p) && p.0.health == t.0 && p.0.contact_damage == t.1
                && p.0.orbs == t.2 && p.0.body == t.3 && p.0.resistance@ == t.4
                && p.1@ == mob_resisted_spec(m),
        },
{
    let (health, contact_damage, orbs, body, resistance): (i32, i32, u32, BodyKind, [i16; 5]) = match m {
        MobType::Knight => (100, 20, 3, BodyKind::Dynamic, [0, 0, 0, 0, 0]),
        MobType::Mossling => (100, 20, 3, BodyKind::Dynamic, [0, 15, 15, 0, 0]),
        MobType::FireMage => (80, 20, 3, BodyKind::Static, [80, 0, 0, 0, 0]),
        MobType::WaterMage => (80, 20, 3, BodyKind::Static, [0, 80, 0, 0, 0]),
        MobType::JungleTurret => (200, 20, 3, BodyKind::Static, [0, 60, 60, 0, 0]),
        MobType::Necromancer => (140, 20, 5, BodyKind::Dynamic, [0, 0, 30, 0, 0]),
        MobType::Koldun => (3000, 40, 100, BodyKind::Dynamic, [20, 20, 20, 20, 20]),
        MobType::ClayGolem => (200, 20, 8, BodyKind::Dynamic, [40, 0, 40, 0, 0]),
        MobType::WaterElemental => (120, 20, 3, BodyKind::Dynamic, [0, 80, 0, 0, 0]),
        MobType::FireElemental => (90, 30, 3, BodyKind::Dynamic, [80, 0, 0, 0, 0]),
        MobType::EarthElemental => (80, 20, 3, BodyKind::Kinematic, [0, 0, 80, 0, 0]),
        MobType::AirElemental => (30, 1, 3, BodyKind::Dynamic, [0, 0, 0, 80, 0]),
        MobType::Thief => (100, 20, 1, BodyKind::Dynamic, [30, 30, 30, 30, 0]),
        _ => {
            return None;
        },
    };
    let mut resisted: Vec<ElementType> = Vec::new();
    match m {
        MobType::Mossling | MobType::JungleTurret => {
            resisted.push(ElementType::Earth);
            resisted.push(ElementType::Water);
        },
        MobType::FireMage | MobType::FireElemental => {
            resisted.push(ElementType::Fire);
        },
        MobType::WaterMage | MobType::WaterElemental => {
            resisted.push(ElementType::Water);
        },
        MobType::Necromancer | MobType::EarthElemental => {
            resisted.push(ElementType::Earth);
        },
        MobType::Koldun | MobType::Thief => {
            resisted.push(ElementType::Earth);
            resisted.push(ElementType::Air);
            resisted.push(ElementType::Fire);
            resisted.push(ElementType::Water);
        },
        MobType::ClayGolem => {
            resisted.push(ElementType::Fire);
            resisted.push(ElementType::Earth);
        },
        MobType::AirElemental => {
            resisted.push(ElementType::Air);
        },
        _ => {},
    }
    let p = MobProfile { health, contact_damage, orbs, body, resistance };
    assert(resisted@ =~= mob_resisted_spec(m));
    assert(p.resistance@ =~= mob_profile_spec(m).unwrap().4);
    Some((p, resisted))
}

/// How a mob attacks.
#[derive(Clone, Copy, Debug, PartialEq, Eq, Structural)]
pub enum AttackType {
    Slash,
    Spear,
    Circle,
    Rush,
    Range,
}

/// The projectiles mobs shoot.
#[derive(Clone, Copy, Debug, PartialEq, Eq, Structural)]
pub enum ProjectileType {
    Circle,
    Missile,
    Gatling,
}

/// How a mob's attack comes out.
#[derive(Clone, Copy, Debug)]
pub enum AttackPlan {
    /// Strikes spawned around the mob: their texture, and how many, spread
    /// evenly around it (one, towards the target, unless more).
    Strikes { texture: &'static str, amount: u32 },
    /// A projectile shot towards the target: its texture and damage.
    Shot { texture: &'static str, damage: u32 },
    /// Nothing: a ranged attack without a projectile.
    Nothing,
}

/// Damage of a projectile shot by a mob.
pub open spec fn projectile_damage(p: ProjectileType) -> u32 {
    match p {
        ProjectileType::Circle => 20,
        ProjectileType::Missile => 25,
        ProjectileType::Gatling => 10,
    }
}

/// The texture of a strike.
pub open spec fn strike_texture(attack: AttackType, friendly: bool) -> Seq<char> {
    if attack == AttackType::Spear {
        if friendly { "textures/pierce.png"@ } else { "textures/pierce_enemy.png"@ }
    } else {
        if friendly { "textures/slash_horisontal.png"@ } else { "textures/slash_horisontal_enemy.png"@ }
    }
}

/// How many strikes an attack spawns.
pub open spec fn strike_amount(attack: AttackType) -> u32 {
    if attack == AttackType::Circle { 16 } else { 1 }
}

/// The texture of a projectile shot by a mob.
pub open spec fn projectile_texture(p: ProjectileType) -> Seq<char> {
    match p {
        ProjectileType::Circle => "textures/earthquake.png"@,
        ProjectileType::Missile => "textures/fireball.png"@,
        ProjectileType::Gatling => "textures/small_fire.png"@,
    }
}

/// The plan of a mob's attack: strikes (sixteen around the mob for a
/// circle attack) with the friendly or hostile texture, or for a ranged
/// attack its projectile.
pub fn attack_plan(attack: AttackType, friendly: bool, projectile: Option<ProjectileType>) -> (p: AttackPlan)
    ensures
        match p {
            AttackPlan::Strikes { texture, amount } => attack != AttackType::Range && amount == strike_amount(attack)
                && texture@ == strike_texture(attack, friendly),
            AttackPlan::Shot { texture, damage } => attack == AttackType::Range && projectile is Some && damage
                == projectile_damage(projectile->Some_0) && texture@ == projectile_texture(projectile->Some_0),
            AttackPlan::Nothing => attack == AttackType::Range && projectile is None,
        },
{
    match attack {
        AttackType::Slash | AttackType::Rush => {
            if friendly {
                AttackPlan::Strikes { texture: "textures/slash_horisontal.png", amount: 1 }
            } else {
                AttackPlan::Strikes { texture: "textures/slash_horisontal_enemy.png", amount: 1 }
            }
        },
        AttackType::Spear => {
            if friendly {
                AttackPlan::Strikes { texture: "textures/pierce.png", amount: 1 }
            } else {
                AttackPlan::Strikes { texture: "textures/pierce_enemy.png", amount: 1 }
            }
        },
        AttackType::Circle => {
            if friendly {
                AttackPlan::Strikes { texture: "textures/slash_horisontal.png", amount: 16 }
            } else {
                AttackPlan::Strikes { texture: "textures/slash_horisontal_enemy.png", amount: 16 }
            }
        },
        AttackType::Range => match projectile {
            Some(ProjectileType::Circle) => AttackPlan::Shot { texture: "textures/earthquake.png", damage: 20 },
            Some(ProjectileType::Missile) => AttackPlan::Shot { texture: "textures/fireball.png", damage: 25 },
            Some(ProjectileType::Gatling) => AttackPlan::Shot { texture: "textures/small_fire.png", damage: 10 },
            None => AttackPlan::Nothing,
        },
    }
}

} // verus!
