use vstd::prelude::*;
use crate::mobs::MobType;

verus! {

/// The elements a spell can be made of; `Steam` is a sub-element that only
/// arises from mixing fire and water.
#[derive(Clone, Copy, Debug, PartialEq, Eq, Structural)]
pub enum ElementType {
    Fire,
    Water,
    Earth,
    Air,
    Steam,
}

/// Position of an element in per-element tables (resistances, damage bonuses).
pub open spec fn element_index_spec(e: ElementType) -> nat {
    match e {
        ElementType::Fire => 0,
        ElementType::Water => 1,
        ElementType::Earth => 2,
        ElementType::Air => 3,
        ElementType::Steam => 4,
    }
}

impl ElementType {
    /// Index of the element in per-element tables: Fire 0, Water 1, Earth 2, Air 3, Steam 4.
    pub fn index(&self) -> (r: usize)
        ensures
            r == element_index_spec(*self),
            r < 5,
    {
        match self {
            ElementType::Fire => 0,
            ElementType::Water => 1,
            ElementType::Earth => 2,
            ElementType::Air => 3,
            ElementType::Steam => 4,
        }
    }

    /// The element with the given table index; indices past 4 give `Fire`.
    pub fn from_index(i: u32) -> (e: ElementType)
        ensures
            i < 5 ==> element_index_spec(e) == i,
            i >= 5 ==> e == ElementType::Fire,
    {
        match i {
            0 => ElementType::Fire,
            1 => ElementType::Water,
            2 => ElementType::Earth,
            3 => ElementType::Air,
            4 => ElementType::Steam,
            _ => ElementType::Fire,
        }
    }
}

} // verus!

verus! {

/// Every spell the player can cast.
#[derive(Clone, Copy, Debug, PartialEq, Eq, Structural)]
pub enum Spell {
    Fire,
    Water,
    Earth,
    Air,
    Steam,
    Shield,
    BlackHole,
    Blank,
    FireElemental,
    WaterElemental,
    EarthElemental,
    AirElemental,
}

/// The spells the player has unlocked so far.
pub struct SpellPool {
    pub unlocked: Vec<Spell>,
}

impl View for SpellPool {
    type V = Seq<Spell>;

    open spec fn view(&self) -> Seq<Spell> {
        self.unlocked@
    }
}

impl SpellPool {
    /// A pool starts with the four basic elements unlocked.
    pub fn new() -> (p: SpellPool)
        ensures
            p@ == seq![Spell::Fire, Spell::Water, Spell::Earth, Spell::Air],
            p@.no_duplicates(),
    {
        let mut v: Vec<Spell> = Vec::new();
        v.push(Spell::Fire);
        v.push(Spell::Water);
        v.push(Spell::Earth);
        v.push(Spell::Air);
        let p = SpellPool { unlocked: v };
        assert(p@ =~= seq![Spell::Fire, Spell::Water, Spell::Earth, Spell::Air]);
        p
    }

    /// Whether `spell` has been unlocked.
    pub fn is_unlocked(&self, spell: Spell) -> (r: bool)
        ensures
            r == self@.contains(spell),
    {
        let mut i: usize = 0;
        while i < self.unlocked.len()
            invariant
                0 <= i <= self.unlocked@.len(),
                forall|j: int| 0 <= j < i ==> self.unlocked@[j] != spell,
            decreases self.unlocked@.len() - i,
        {
            if self.unlocked[i] == spell {
                assert(self@[i as int] == spell);
                return true;
            }
            i = i + 1;
        }
        false
    }

    /// Unlocks `spell`; a spell that is already unlocked is not added twice.
    pub fn unlock(&mut self, spell: Spell)
        ensures
            old(self)@.contains(spell) ==> final(self)@ == old(self)@,
            !old(self)@.contains(spell) ==> final(self)@ == old(self)@.push(spell),
            final(self)@.contains(spell),
            old(self)@.no_duplicates() ==> final(self)@.no_duplicates(),
    {
        if !self.is_unlocked(spell) {
            self.unlocked.push(spell);
            proof {
                let before = old(self)@;
                let after = self@;
                assert(after[before.len() as int] == spell);
                if before.no_duplicates() {
                    assert forall|i: int, j: int|
                        0 <= i < after.len() && 0 <= j < after.len() && i != j implies after[i]
                        != after[j] by {
                        if i < before.len() && j < before.len() {
                        } else if i == before.len() {
                            assert(before[j] == after[j]);
                        } else {
                            assert(before[i] == after[i]);
                        }
                    }
                }
            }
        }
    }
}

/// The elements gathered for the next cast. Each counter holds how many
/// charges of that element are on the bar; `max` caps the total.
#[derive(Clone, Copy, Debug)]
pub struct ElementBar {
    pub fire: u8,
    pub water: u8,
    pub earth: u8,
    pub air: u8,
    pub max: u8,
}

impl ElementBar {
    /// Number of charges on the bar, as a mathematical integer.
    pub open spec fn total(self) -> int {
        self.fire + self.water + self.earth + self.air
    }

    /// An empty bar that holds a single charge.
    pub fn new() -> (b: ElementBar)
        ensures
            b.fire == 0 && b.water == 0 && b.earth == 0 && b.air == 0,
            b.max == 1,
    {
        ElementBar { fire: 0, water: 0, earth: 0, air: 0, max: 1 }
    }

    /// Removes every charge; the capacity stays.
    pub fn clear(&mut self)
        ensures
            final(self).fire == 0 && final(self).water == 0,
            final(self).earth == 0 && final(self).air == 0,
            final(self).max == old(self).max,
    {
        self.fire = 0;
        self.water = 0;
        self.earth = 0;
        self.air = 0;
    }

    /// Number of charges on the bar.
    pub fn len(&self) -> (r: u8)
        requires
            self.total() <= u8::MAX,
        ensures
            r == self.total(),
    {
        self.fire + self.water + self.earth + self.air
    }

    /// Adds one charge of `element` when the bar has room; `Steam` cannot be
    /// added directly and leaves the bar unchanged.
    pub fn add(&mut self, element: ElementType)
        requires
            old(self).total() <= u8::MAX,
        ensures
            final(self).max == old(self).max,
            old(self).total() >= old(self).max || element == ElementType::Steam
                ==> *final(self) == *old(self),
            old(self).total() < old(self).max ==> {
                &&& final(self).fire == old(self).fire + (if element == ElementType::Fire { 1int } else { 0int })
                &&& final(self).water == old(self).water + (if element == ElementType::Water { 1int } else { 0int })
                &&& final(self).earth == old(self).earth + (if element == ElementType::Earth { 1int } else { 0int })
                &&& final(self).air == old(self).air + (if element == ElementType::Air { 1int } else { 0int })
            },
            old(self).total() <= old(self).max ==> final(self).total() <= final(self).max,
    {
        if self.len() < self.max {
            match element {
                ElementType::Fire => self.fire = self.fire + 1,
                ElementType::Water => self.water = self.water + 1,
                ElementType::Earth => self.earth = self.earth + 1,
                ElementType::Air => self.air = self.air + 1,
                ElementType::Steam => {},
            }
        }
    }
}

} // verus!

verus! {

/// Per-element damage resistance of an entity. `elements` lists the elements
/// it resists, `resistance_percent` holds one percentage per element index.
pub struct ElementResistance {
    pub elements: Vec<ElementType>,
    pub resistance_percent: Vec<i16>,
}

impl ElementResistance {
    /// No resistances: no elements and a zero percentage for each of the five elements.
    pub fn none() -> (r: ElementResistance)
        ensures
            r.elements@ == Seq::<ElementType>::empty(),
            r.resistance_percent@ == seq![0i16, 0i16, 0i16, 0i16, 0i16],
    {
        let r = ElementResistance { elements: Vec::new(), resistance_percent: vec![0, 0, 0, 0, 0] };
        assert(r.resistance_percent@ =~= seq![0i16, 0i16, 0i16, 0i16, 0i16]);
        r
    }

    /// Whether `element` is among the resisted elements.
    pub fn resists(&self, element: ElementType) -> (r: bool)
        ensures
            r == self.elements@.contains(element),
    {
        let mut i: usize = 0;
        while i < self.elements.len()
            invariant
                0 <= i <= self.elements@.len(),
                forall|j: int| 0 <= j < i ==> self.elements@[j] != element,
            decreases self.elements@.len() - i,
        {
            if self.elements[i] == element {
                assert(self.elements@[i as int] == element);
                return true;
            }
            i = i + 1;
        }
        false
    }

    /// Adds `percent` to the resistance against `element`, and records the
    /// element as resisted if it was not already.
    pub fn add(&mut self, element: ElementType, percent: i16)
        requires
            element_index_spec(element) < old(self).resistance_percent@.len(),
            i16::MIN <= old(self).resistance_percent@[element_index_spec(element) as int] + percent
                <= i16::MAX,
        ensures
            old(self).elements@.contains(element) ==> final(self).elements@ == old(self).elements@,
            !old(self).elements@.contains(element) ==> final(self).elements@ == old(self).elements@.push(
                element,
            ),
            final(self).resistance_percent@ == old(self).resistance_percent@.update(
                element_index_spec(element) as int,
                (old(self).resistance_percent@[element_index_spec(element) as int] + percent) as i16,
            ),
    {
        if !self.resists(element) {
            self.elements.push(element);
        }
        let idx = element.index();
        let v = self.resistance_percent[idx] + percent;
        self.resistance_percent.set(idx, v);
    }
}

/// The spell a full bar turns into, checked in the game's fixed order of
/// recipes; `None` when no recipe matches.
pub open spec fn recipe_spell(bar: ElementBar, unlocked: Seq<Spell>) -> Option<Spell> {
    if unlocked.contains(Spell::Shield) && bar.water == 1 && bar.earth > 1 && bar.fire == 0
        && bar.air == 0 {
        Some(Spell::Shield)
    } else if unlocked.contains(Spell::Blank) && bar.water == 1 && bar.air > 1 && bar.fire == 0
        && bar.earth == 0 {
        Some(Spell::Blank)
    } else if unlocked.contains(Spell::BlackHole) && bar.fire == bar.water && bar.water
        == bar.earth && bar.earth == bar.air {
        Some(Spell::BlackHole)
    } else if unlocked.contains(Spell::FireElemental) && bar.earth >= 1 && bar.air == 0
        && bar.water >= 1 && bar.fire == 2 {
        Some(Spell::FireElemental)
    } else if unlocked.contains(Spell::WaterElemental) && bar.earth >= 1 && bar.air == 0
        && bar.water == 2 && bar.fire >= 1 {
        Some(Spell::WaterElemental)
    } else if unlocked.contains(Spell::EarthElemental) && bar.earth == 2 && bar.air == 0
        && bar.water >= 1 && bar.fire >= 1 {
        Some(Spell::EarthElemental)
    } else if unlocked.contains(Spell::AirElemental) && bar.earth == 0 && bar.air == 2
        && bar.water >= 1 && bar.fire >= 1 {
        Some(Spell::AirElemental)
    } else if bar.fire > 0 && bar.water > 0 && bar.earth + bar.air < bar.fire + bar.water
        && unlocked.contains(Spell::Steam) {
        Some(Spell::Steam)
    } else if bar.fire > bar.water && bar.earth == 0 && bar.air == 0 {
        Some(Spell::Fire)
    } else if bar.water > bar.fire && bar.earth == 0 && bar.air == 0 {
        Some(Spell::Water)
    } else if bar.earth > 0 && bar.air == 0 {
        Some(Spell::Earth)
    } else if bar.air > 0 {
        Some(Spell::Air)
    } else {
        None
    }
}

/// One of the four spells of a single element.
pub open spec fn basic_spell(s: Spell) -> bool {
    s == Spell::Fire || s == Spell::Water || s == Spell::Earth || s == Spell::Air
}

/// The four spells of a single element follow the charges on the bar: fire
/// takes more fire than water and neither earth nor air, water more water
/// than fire and neither earth nor air, earth some earth and no air, air
/// some air. When the cast is one of them, earth without air makes it
/// earth and any air makes it air. With nothing but those four unlocked,
/// the charges alone decide: earth without air casts earth, air casts air,
/// and with neither, the larger of fire and water casts its spell (a tie
/// casts nothing).
pub proof fn lemma_basic_recipes(bar: ElementBar, unlocked: Seq<Spell>)
    ensures
        recipe_spell(bar, unlocked) == Some(Spell::Fire) ==> bar.fire > bar.water && bar.earth == 0 && bar.air == 0,
        recipe_spell(bar, unlocked) == Some(Spell::Water) ==> bar.water > bar.fire && bar.earth == 0 && bar.air == 0,
        recipe_spell(bar, unlocked) == Some(Spell::Earth) ==> bar.earth > 0 && bar.air == 0,
        recipe_spell(bar, unlocked) == Some(Spell::Air) ==> bar.air > 0,
        (recipe_spell(bar, unlocked) matches Some(s) && basic_spell(s)) && bar.earth > 0 && bar.air == 0
            ==> recipe_spell(bar, unlocked) == Some(Spell::Earth),
        (recipe_spell(bar, unlocked) matches Some(s) && basic_spell(s)) && bar.air > 0 ==> recipe_spell(bar, unlocked)
            == Some(Spell::Air),
        (forall|s: Spell| #[trigger] unlocked.contains(s) ==> basic_spell(s)) ==> {
            &&& bar.earth > 0 && bar.air == 0 ==> recipe_spell(bar, unlocked) == Some(Spell::Earth)
            &&& bar.air > 0 ==> recipe_spell(bar, unlocked) == Some(Spell::Air)
            &&& bar.earth == 0 && bar.air == 0 && bar.fire > bar.water ==> recipe_spell(bar, unlocked) == Some(Spell::Fire)
            &&& bar.earth == 0 && bar.air == 0 && bar.water > bar.fire ==> recipe_spell(bar, unlocked) == Some(Spell::Water)
            &&& bar.earth == 0 && bar.air == 0 && bar.water == bar.fire ==> recipe_spell(bar, unlocked) is None
        },
{
    if forall|s: Spell| #[trigger] unlocked.contains(s) ==> basic_spell(s) {
        assert(!unlocked.contains(Spell::Shield));
        assert(!unlocked.contains(Spell::Blank));
        assert(!unlocked.contains(Spell::BlackHole));
        assert(!unlocked.contains(Spell::FireElemental));
        assert(!unlocked.contains(Spell::WaterElemental));
        assert(!unlocked.contains(Spell::EarthElemental));
        assert(!unlocked.contains(Spell::AirElemental));
        assert(!unlocked.contains(Spell::Steam));
    }
}

/// What each of the other recipes takes: the spell unlocked and the charges
/// its recipe names. The shield takes one water, two earth or more and
/// nothing else; the blank one water, two air or more and nothing else;
/// the black hole as many charges of each element; the fire elemental two
/// fire, some water, some earth and no air; the water elemental two water,
/// some fire, some earth and no air; the earth elemental two earth, some
/// fire, some water and no air; the air elemental two air, some fire, some
/// water and no earth; steam some fire and some water, outnumbering the
/// earth and air charges together.
pub proof fn lemma_special_recipes(bar: ElementBar, unlocked: Seq<Spell>)
    ensures
        recipe_spell(bar, unlocked) == Some(Spell::Shield) ==> unlocked.contains(Spell::Shield) && bar.water == 1
            && bar.earth >= 2 && bar.fire == 0 && bar.air == 0,
        recipe_spell(bar, unlocked) == Some(Spell::Blank) ==> unlocked.contains(Spell::Blank) && bar.water == 1
            && bar.air >= 2 && bar.fire == 0 && bar.earth == 0,
        recipe_spell(bar, unlocked) == Some(Spell::BlackHole) ==> unlocked.contains(Spell::BlackHole) && bar.fire
            == bar.water && bar.water == bar.earth && bar.earth == bar.air,
        recipe_spell(bar, unlocked) == Some(Spell::FireElemental) ==> unlocked.contains(Spell::FireElemental)
            && bar.fire == 2 && bar.water >= 1 && bar.earth >= 1 && bar.air == 0,
        recipe_spell(bar, unlocked) == Some(Spell::WaterElemental) ==> unlocked.contains(Spell::WaterElemental)
            && bar.water == 2 && bar.fire >= 1 && bar.earth >= 1 && bar.air == 0,
        recipe_spell(bar, unlocked) == Some(Spell::EarthElemental) ==> unlocked.contains(Spell::EarthElemental)
            && bar.earth == 2 && bar.fire >= 1 && bar.water >= 1 && bar.air == 0,
        recipe_spell(bar, unlocked) == Some(Spell::AirElemental) ==> unlocked.contains(Spell::AirElemental)
            && bar.air == 2 && bar.fire >= 1 && bar.water >= 1 && bar.earth == 0,
        recipe_spell(bar, unlocked) == Some(Spell::Steam) ==> unlocked.contains(Spell::Steam) && bar.fire > 0
            && bar.water > 0 && bar.earth + bar.air < bar.fire + bar.water,
        unlocked.contains(Spell::Shield) && bar.water == 1 && bar.earth >= 2 && bar.fire == 0 && bar.air == 0
            ==> recipe_spell(bar, unlocked) == Some(Spell::Shield),
        !(bar.fire == bar.water && bar.water == bar.earth && bar.earth == bar.air) && unlocked.contains(Spell::Steam)
            && bar.fire > 0 && bar.water > 0 && bar.earth == 0 && bar.air == 0 && bar.fire != 2 && bar.water != 2
            && (bar.water != 1 || bar.fire > 0) ==> recipe_spell(bar, unlocked) == Some(Spell::Steam),
{
}

/// The element with the most charges; ties go to the first of fire, water,
/// earth, air.
pub open spec fn dominant_element_spec(bar: ElementBar) -> ElementType {
    if bar.fire >= bar.water && bar.fire >= bar.earth && bar.fire >= bar.air {
        ElementType::Fire
    } else if bar.water >= bar.earth && bar.water >= bar.air {
        ElementType::Water
    } else if bar.earth >= bar.air {
        ElementType::Earth
    } else {
        ElementType::Air
    }
}

/// The element a cast is made of: `Steam` for the steam spell, else the
/// dominant element of the bar.
pub open spec fn cast_element_spec(bar: ElementBar, spell: Spell) -> ElementType {
    if spell == Spell::Steam {
        ElementType::Steam
    } else {
        dominant_element_spec(bar)
    }
}

/// What a cast turns into: the spell and the element it is made of.
#[derive(Clone, Copy, Debug, PartialEq, Eq, Structural)]
pub struct SpellCast {
    pub spell: Spell,
    pub element: ElementType,
}

/// The dominant element of the bar.
pub fn dominant_element(bar: &ElementBar) -> (e: ElementType)
    ensures
        e == dominant_element_spec(*bar),
        e == ElementType::Fire ==> bar.fire >= bar.water && bar.fire >= bar.earth && bar.fire >= bar.air,
        e == ElementType::Water ==> bar.water >= bar.fire && bar.water >= bar.earth && bar.water
            >= bar.air,
        e == ElementType::Earth ==> bar.earth >= bar.fire && bar.earth >= bar.water && bar.earth
            >= bar.air,
        e == ElementType::Air ==> bar.air >= bar.fire && bar.air >= bar.water && bar.air
            >= bar.earth,
        e != ElementType::Steam,
{
    let mut m = bar.fire;
    if bar.water > m {
        m = bar.water;
    }
    if bar.earth > m {
        m = bar.earth;
    }
    if bar.air > m {
        m = bar.air;
    }
    if m == bar.fire {
        ElementType::Fire
    } else if m == bar.water {
        ElementType::Water
    } else if m == bar.earth {
        ElementType::Earth
    } else {
        ElementType::Air
    }
}

/// Decides which spell the gathered charges cast, following the game's
/// recipes in order, and the element the cast is made of.
pub fn choose_recipe(bar: &ElementBar, pool: &SpellPool) -> (r: Option<SpellCast>)
    requires
        bar.total() <= u8::MAX,
    ensures
        r matches Some(c) ==> recipe_spell(*bar, pool@) == Some(c.spell) && c.element
            == cast_element_spec(*bar, c.spell),
        r is None <==> recipe_spell(*bar, pool@) is None,
        bar.total() > 0 && !(bar.fire == bar.water && bar.earth == 0 && bar.air == 0) ==> r is Some,
        r matches Some(c) ==> (c.spell == Spell::Fire ==> bar.fire > bar.water && bar.earth == 0 && bar.air == 0),
        r matches Some(c) ==> (c.spell == Spell::Water ==> bar.water > bar.fire && bar.earth == 0 && bar.air == 0),
        r matches Some(c) ==> (c.spell == Spell::Earth ==> bar.earth > 0 && bar.air == 0),
        r matches Some(c) ==> (c.spell == Spell::Air ==> bar.air > 0),
        r matches Some(c) ==> (basic_spell(c.spell) && bar.earth > 0 && bar.air == 0 ==> c.spell == Spell::Earth),
        r matches Some(c) ==> (basic_spell(c.spell) && bar.air > 0 ==> c.spell == Spell::Air),
{
    proof {
        lemma_basic_recipes(*bar, pool@);
    }
    let spell: Spell;
    if pool.is_unlocked(Spell::Shield) && bar.water == 1 && bar.earth > 1 && bar.fire == 0
        && bar.air == 0 {
        spell = Spell::Shield;
    } else if pool.is_unlocked(Spell::Blank) && bar.water == 1 && bar.air > 1 && bar.fire == 0
        && bar.earth == 0 {
        spell = Spell::Blank;
    } else if pool.is_unlocked(Spell::BlackHole) && bar.fire == bar.water && bar.water == bar.earth
        && bar.earth == bar.air {
        spell = Spell::BlackHole;
    } else if pool.is_unlocked(Spell::FireElemental) && bar.earth >= 1 && bar.air == 0
        && bar.water >= 1 && bar.fire == 2 {
        spell = Spell::FireElemental;
    } else if pool.is_unlocked(Spell::WaterElemental) && bar.earth >= 1 && bar.air == 0
        && bar.water == 2 && bar.fire >= 1 {
        spell = Spell::WaterElemental;
    } else if pool.is_unlocked(Spell::EarthElemental) && bar.earth == 2 && bar.air == 0
        && bar.water >= 1 && bar.fire >= 1 {
        spell = Spell::EarthElemental;
    } else if pool.is_unlocked(Spell::AirElemental) && bar.earth == 0 && bar.air == 2
        && bar.water >= 1 && bar.fire >= 1 {
        spell = Spell::AirElemental;
    } else if bar.fire > 0 && bar.water > 0 && bar.earth + bar.air < bar.fire + bar.water
        && pool.is_unlocked(Spell::Steam) {
        spell = Spell::Steam;
    } else if bar.fire > bar.water && bar.earth == 0 && bar.air == 0 {
        spell = Spell::Fire;
    } else if bar.water > bar.fire && bar.earth == 0 && bar.air == 0 {
        spell = Spell::Water;
    } else if bar.earth > 0 && bar.air == 0 {
        spell = Spell::Earth;
    } else if bar.air > 0 {
        spell = Spell::Air;
    } else {
        return None;
    }
    let element = if spell == Spell::Steam {
        ElementType::Steam
    } else {
        dominant_element(bar)
    };
    Some(SpellCast { spell, element })
}

/// Damage of a cast: the caster's damage for the element times the number of
/// charges used.
pub fn spell_damage(element_damage: u32, bar: &ElementBar) -> (d: u32)
    requires
        bar.total() <= u8::MAX,
        element_damage * bar.total() <= u32::MAX,
    ensures
        d == element_damage * bar.total(),
{
    let n = bar.len() as u32;
    element_damage * n
}

/// How a projectile spell fires: how many projectiles, and the damage each carries.
#[derive(Clone, Copy, Debug, PartialEq, Eq, Structural)]
pub struct Volley {
    pub count: u32,
    pub damage_each: u32,
}

/// The volley of a projectile spell cast with total damage `damage`: fire,
/// water and steam split the damage over three projectiles per charge of
/// their elements, earth fires three full-damage shards per charge in a ring,
/// air fires a single bolt. Other spells are no volley.
pub open spec fn volley_spec(spell: Spell, bar: ElementBar, damage: u32) -> Option<Volley> {
    match spell {
        Spell::Fire => Some(Volley { count: (bar.fire * 3) as u32, damage_each: (damage / (bar.fire as u32)) as u32 }),
        Spell::Water => Some(Volley { count: (bar.water * 3) as u32, damage_each: (damage / (bar.water as u32)) as u32 }),
        Spell::Earth => Some(Volley { count: (bar.total() * 3) as u32, damage_each: damage }),
        Spell::Air => Some(Volley { count: 1, damage_each: damage }),
        Spell::Steam => Some(Volley {
            count: ((bar.fire + bar.water) * 3) as u32,
            damage_each: (damage / ((bar.fire + bar.water) as u32)) as u32,
        }),
        _ => None,
    }
}

/// A fire or water volley fires three projectiles per charge of its own
/// element, a steam volley three per charge of fire or water, and each
/// splits the damage evenly over those charges (rounding down); the other
/// charges on the bar change nothing. An earth volley fires three full
/// shards per charge of any element.
pub proof fn lemma_volley_charges(b1: ElementBar, b2: ElementBar, damage: u32)
    ensures
        b1.fire > 0 ==> (volley_spec(Spell::Fire, b1, damage) matches Some(v) && v.count == 3 * b1.fire && v.damage_each
            * b1.fire <= damage < (v.damage_each + 1) * b1.fire),
        b1.water > 0 ==> (volley_spec(Spell::Water, b1, damage) matches Some(v) && v.count == 3 * b1.water
            && v.damage_each * b1.water <= damage < (v.damage_each + 1) * b1.water),
        b1.fire + b1.water > 0 ==> (volley_spec(Spell::Steam, b1, damage) matches Some(v) && v.count == 3 * (b1.fire
            + b1.water) && v.damage_each * (b1.fire + b1.water) <= damage < (v.damage_each + 1) * (b1.fire + b1.water)),
        b1.total() * 3 <= u32::MAX ==> (volley_spec(Spell::Earth, b1, damage) matches Some(v) && v.count == 3
            * b1.total() && v.damage_each == damage),
        b1.fire == b2.fire ==> volley_spec(Spell::Fire, b1, damage) == volley_spec(Spell::Fire, b2, damage),
        b1.water == b2.water ==> volley_spec(Spell::Water, b1, damage) == volley_spec(Spell::Water, b2, damage),
        b1.fire + b1.water == b2.fire + b2.water ==> volley_spec(Spell::Steam, b1, damage) == volley_spec(
            Spell::Steam,
            b2,
            damage,
        ),
{
    if b1.fire > 0 {
        vstd::arithmetic::div_mod::lemma_fundamental_div_mod(damage as int, b1.fire as int);
        vstd::arithmetic::div_mod::lemma_mod_bound(damage as int, b1.fire as int);
        let q = damage as int / b1.fire as int;
        assert(q * b1.fire == b1.fire * q) by (nonlinear_arith);
        assert((q + 1) * b1.fire == b1.fire * q + b1.fire) by (nonlinear_arith);
        assert(0 <= q <= damage) by {
            vstd::arithmetic::div_mod::lemma_div_pos_is_pos(damage as int, b1.fire as int);
            vstd::arithmetic::div_mod::lemma_div_is_ordered_by_denominator(damage as int, 1, b1.fire as int);
        }
    }
    if b1.water > 0 {
        vstd::arithmetic::div_mod::lemma_fundamental_div_mod(damage as int, b1.water as int);
        vstd::arithmetic::div_mod::lemma_mod_bound(damage as int, b1.water as int);
        let q = damage as int / b1.water as int;
        assert(q * b1.water == b1.water * q) by (nonlinear_arith);
        assert((q + 1) * b1.water == b1.water * q + b1.water) by (nonlinear_arith);
        assert(0 <= q <= damage) by {
            vstd::arithmetic::div_mod::lemma_div_pos_is_pos(damage as int, b1.water as int);
            vstd::arithmetic::div_mod::lemma_div_is_ordered_by_denominator(damage as int, 1, b1.water as int);
        }
    }
    if b1.fire + b1.water > 0 {
        let n = b1.fire + b1.water;
        vstd::arithmetic::div_mod::lemma_fundamental_div_mod(damage as int, n);
        vstd::arithmetic::div_mod::lemma_mod_bound(damage as int, n);
        let q = damage as int / n;
        assert(q * n == n * q) by (nonlinear_arith);
        assert((q + 1) * n == n * q + n) by (nonlinear_arith);
        assert(0 <= q <= damage) by {
            vstd::arithmetic::div_mod::lemma_div_pos_is_pos(damage as int, n);
            vstd::arithmetic::div_mod::lemma_div_is_ordered_by_denominator(damage as int, 1, n);
        }
    }
}

/// Computes the volley a projectile spell fires.
pub fn spell_volley(spell: Spell, bar: &ElementBar, damage: u32) -> (v: Option<Volley>)
    requires
        spell == Spell::Fire ==> 0 < bar.fire && bar.fire * 3 <= u8::MAX,
        spell == Spell::Water ==> 0 < bar.water && bar.water * 3 <= u8::MAX,
        spell == Spell::Earth ==> bar.total() * 3 <= u8::MAX,
        spell == Spell::Steam ==> 0 < bar.fire + bar.water && (bar.fire + bar.water) * 3 <= u8::MAX,
    ensures
        v == volley_spec(spell, *bar, damage),
        spell == Spell::Fire ==> v == Some(Volley { count: (bar.fire * 3) as u32, damage_each: damage / (bar.fire as u32) }),
        spell == Spell::Water ==> v == Some(Volley { count: (bar.water * 3) as u32, damage_each: damage / (bar.water as u32) }),
        spell == Spell::Steam ==> v == Some(
            Volley { count: ((bar.fire + bar.water) * 3) as u32, damage_each: damage / ((bar.fire + bar.water) as u32) },
        ),
        spell == Spell::Earth ==> v == Some(Volley { count: (bar.total() * 3) as u32, damage_each: damage }),
        spell == Spell::Air ==> v == Some(Volley { count: 1, damage_each: damage }),
{
    match spell {
        Spell::Fire => Some(Volley { count: (bar.fire * 3) as u32, damage_each: damage / (bar.fire as u32) }),
        Spell::Water => Some(Volley { count: (bar.water * 3) as u32, damage_each: damage / (bar.water as u32) }),
        Spell::Earth => {
            let n = bar.len();
            Some(Volley { count: (n * 3) as u32, damage_each: damage })
        },
        Spell::Air => Some(Volley { count: 1, damage_each: damage }),
        Spell::Steam => {
            let n = bar.fire + bar.water;
            Some(Volley { count: (n * 3) as u32, damage_each: damage / (n as u32) })
        },
        _ => None,
    }
}

/// The friendly mob an elemental spell calls to the cursor.
pub open spec fn spell_summon_spec(spell: Spell) -> Option<MobType> {
    match spell {
        Spell::FireElemental => Some(MobType::FireElemental),
        Spell::WaterElemental => Some(MobType::WaterElemental),
        Spell::EarthElemental => Some(MobType::EarthElemental),
        Spell::AirElemental => Some(MobType::AirElemental),
        _ => None,
    }
}

/// The friendly mob a spell calls, if it is an elemental spell.
pub fn spell_summon(spell: Spell) -> (m: Option<MobType>)
    ensures
        m == spell_summon_spec(spell),
{
    match spell {
        Spell::FireElemental => Some(MobType::FireElemental),
        Spell::WaterElemental => Some(MobType::WaterElemental),
        Spell::EarthElemental => Some(MobType::EarthElemental),
        Spell::AirElemental => Some(MobType::AirElemental),
        _ => None,
    }
}

/// How long a cast shield lasts, in seconds: two per earth charge, one more
/// per shield item held.
pub fn shield_duration(bar: &ElementBar, shield_items: u32) -> (d: u32)
    requires
        bar.earth * 2 + shield_items <= u32::MAX,
    ensures
        d == bar.earth * 2 + shield_items,
{
    (bar.earth as u32) * 2 + shield_items
}

/// How far a cast blank reaches: two per air charge, one more per blank
/// item held.
pub fn blank_range(bar: &ElementBar, blank_items: u32) -> (r: u32)
    requires
        bar.air * 2 + blank_items <= u32::MAX,
    ensures
        r == bar.air * 2 + blank_items,
{
    (bar.air as u32) * 2 + blank_items
}

} // verus!
