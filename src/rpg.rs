//! Integer rules of character progression.
use vstd::prelude::*;

verus! {

/// Kinds of experience a character gains.
#[derive(Clone, Copy, Debug, PartialEq, Eq, Structural)]
pub enum ExperienceType {
    LightArmor,
    MediumArmor,
    HeavyArmor,
    Marksmanship,
    Swordsmanship,
    Abjuration,
    Transmutation,
    Conjuration,
    Divination,
    Enchantment,
    Evocation,
    Illusion,
    Necromancy,
}

impl ExperienceType {
    /// Position of the kind in the per-kind tables.
    pub open spec fn index_spec(self) -> nat {
        match self {
            ExperienceType::LightArmor => 0,
            ExperienceType::MediumArmor => 1,
            ExperienceType::HeavyArmor => 2,
            ExperienceType::Marksmanship => 3,
            ExperienceType::Swordsmanship => 4,
            ExperienceType::Abjuration => 5,
            ExperienceType::Transmutation => 6,
            ExperienceType::Conjuration => 7,
            ExperienceType::Divination => 8,
            ExperienceType::Enchantment => 9,
            ExperienceType::Evocation => 10,
            ExperienceType::Illusion => 11,
            ExperienceType::Necromancy => 12,
        }
    }

    pub fn index(self) -> (r: usize)
        ensures
            r == self.index_spec(),
            r < 13,
    {
        match self {
            ExperienceType::LightArmor => 0,
            ExperienceType::MediumArmor => 1,
            ExperienceType::HeavyArmor => 2,
            ExperienceType::Marksmanship => 3,
            ExperienceType::Swordsmanship => 4,
            ExperienceType::Abjuration => 5,
            ExperienceType::Transmutation => 6,
            ExperienceType::Conjuration => 7,
            ExperienceType::Divination => 8,
            ExperienceType::Enchantment => 9,
            ExperienceType::Evocation => 10,
            ExperienceType::Illusion => 11,
            ExperienceType::Necromancy => 12,
        }
    }

    /// Armour and weapon kinds are martial; the schools of magic are not.
    pub fn is_martial(&self) -> (r: bool)
        ensures
            r == (self.index_spec() < 5),
    {
        match self {
            ExperienceType::LightArmor | ExperienceType::MediumArmor | ExperienceType::HeavyArmor
            | ExperienceType::Marksmanship | ExperienceType::Swordsmanship => true,
            _ => false,
        }
    }
}

/// The ability modifier of a score: half its distance from ten, rounded
/// toward zero. A byte above 127 reads as the negative score it is as an
/// `i8`; the bytes 128 to 137 would overflow and are not scores.
pub fn modifier(stat: u8) -> (r: i8)
    requires
        stat < 128 || stat >= 138,
    ensures
        10 <= stat < 128 ==> r == (stat - 10) / 2,
        stat < 10 ==> r == -((10 - stat) / 2),
        stat >= 138 ==> r == -((266 - stat) / 2),
{
    if stat >= 138 {
        -(((266 - stat as u16) / 2) as i8)
    } else if stat >= 10 {
        ((stat - 10) / 2) as i8
    } else {
        -(((10 - stat) / 2) as i8)
    }
}

/// The larger of two modifiers.
pub fn max(a: i8, b: i8) -> (r: i8)
    ensures
        r == if a > b { a } else { b },
{
    if a > b {
        a
    } else {
        b
    }
}

/// The modifier of a score, as `modifier` computes it.
pub open spec fn modifier_spec(stat: u8) -> int {
    if stat >= 138 {
        -((266 - stat) / 2)
    } else if stat >= 10 {
        (stat - 10) / 2
    } else {
        -((10 - stat) / 2)
    }
}

/// Bytes that `modifier` accepts.
pub open spec fn valid_stat(stat: u8) -> bool {
    stat < 128 || stat >= 138
}

/// A small signed value read as a `u16`: negative values wrap.
pub open spec fn wrap_u16(v: int) -> int {
    if v >= 0 {
        v
    } else {
        65536 + v
    }
}

fn to_u16_wrapping(v: i8) -> (r: u16)
    ensures
        r == wrap_u16(v as int),
{
    if v >= 0 {
        v as u16
    } else {
        (65536 + v as i32) as u16
    }
}

/// The integer part of a character sheet: levels, experience and maxima.
#[derive(Debug)]
pub struct RPG {
    pub level: u8,
    pub magic_level: u8,
    pub martial_level: u8,
    pub magic_experience: u16,
    pub martial_experience: u16,
    /// Experience per kind, indexed by `ExperienceType::index`.
    pub experience_types: Vec<u16>,
    /// Level per kind, indexed by `ExperienceType::index`.
    pub levels_experience_types: Vec<u8>,
    pub max_health: u16,
    pub max_mana: u16,
    pub max_stamina: u16,
    pub strength: u8,
    pub dexterity: u8,
    pub intelligence: u8,
    pub wisdom: u8,
    pub charisma: u8,
    pub constitution: u8,
}

impl RPG {
    /// Experience needed to leave `level`.
    pub fn xp_needed_to_level_up(level: u8) -> (r: u16)
        ensures
            r == 100 * level,
    {
        100 * level as u16
    }

    pub open spec fn wf(&self) -> bool {
        &&& self.experience_types@.len() == 13
        &&& self.levels_experience_types@.len() == 13
        &&& valid_stat(self.dexterity) && valid_stat(self.constitution)
        &&& valid_stat(self.intelligence) && valid_stat(self.wisdom)
    }

    /// Health gained per level.
    pub open spec fn health_gain(&self) -> int {
        wrap_u16(5 + modifier_spec(self.constitution))
    }

    /// Mana gained per magic level.
    pub open spec fn mana_gain(&self) -> int {
        wrap_u16(
            5 + if modifier_spec(self.intelligence) > modifier_spec(self.wisdom) {
                modifier_spec(self.intelligence)
            } else {
                modifier_spec(self.wisdom)
            },
        )
    }

    /// Stamina gained per martial level.
    pub open spec fn stamina_gain(&self) -> int {
        wrap_u16(5 + modifier_spec(self.dexterity))
    }

    pub fn new(
        strength: u8,
        dexterity: u8,
        intelligence: u8,
        wisdom: u8,
        charisma: u8,
        constitution: u8,
    ) -> (r: RPG)
        requires
            valid_stat(dexterity),
            valid_stat(intelligence),
            valid_stat(wisdom),
            valid_stat(constitution),
        ensures
            r.wf(),
            r.level == 1 && r.magic_level == 1 && r.martial_level == 1,
            r.magic_experience == 0 && r.martial_experience == 0,
            forall|i: int| 0 <= i < 13 ==> r.experience_types@[i] == 0 && r.levels_experience_types@[i] == 1,
            r.max_health == wrap_u16(8 + modifier_spec(constitution)),
            r.max_mana == wrap_u16(
                8 + if modifier_spec(intelligence) > modifier_spec(wisdom) {
                    modifier_spec(intelligence)
                } else {
                    modifier_spec(wisdom)
                },
            ),
            r.max_stamina == wrap_u16(8 + modifier_spec(dexterity)),
            r.strength == strength && r.dexterity == dexterity && r.intelligence == intelligence,
            r.wisdom == wisdom && r.charisma == charisma && r.constitution == constitution,
    {
        let mut experience_types: Vec<u16> = Vec::new();
        let mut levels_experience_types: Vec<u8> = Vec::new();
        let mut i: usize = 0;
        while i < 13
            invariant
                i <= 13,
                experience_types@.len() == i,
                levels_experience_types@.len() == i,
                forall|j: int| 0 <= j < i ==> experience_types@[j] == 0 && levels_experience_types@[j] == 1,
            decreases 13 - i,
        {
            experience_types.push(0);
            levels_experience_types.push(1);
            i = i + 1;
        }
        let best = max(modifier(intelligence), modifier(wisdom));
        RPG {
            level: 1,
            magic_level: 1,
            martial_level: 1,
            magic_experience: 0,
            martial_experience: 0,
            experience_types,
            levels_experience_types,
            max_health: to_u16_wrapping(8 + modifier(constitution)),
            max_mana: to_u16_wrapping(8 + best),
            max_stamina: to_u16_wrapping(8 + modifier(dexterity)),
            strength,
            dexterity,
            intelligence,
            wisdom,
            charisma,
            constitution,
        }
    }

    fn level_up(&mut self)
        requires
            old(self).wf(),
            old(self).level < 255,
            old(self).max_health + old(self).health_gain() <= u16::MAX,
        ensures
            *final(self) == (RPG {
                level: (old(self).level + 1) as u8,
                max_health: (old(self).max_health + old(self).health_gain()) as u16,
                ..*old(self)
            }),
    {
        self.level = self.level + 1;
        self.max_health = self.max_health + to_u16_wrapping(5 + modifier(self.constitution));
    }

    /// A magic level's worth of experience becomes a character level.
    pub fn level_up_magic(&mut self)
        requires
            old(self).wf(),
            old(self).level < 255,
            old(self).max_health + old(self).health_gain() <= u16::MAX,
            old(self).magic_experience >= 100 * old(self).magic_level,
            old(self).max_mana + old(self).mana_gain() <= u16::MAX,
        ensures
            *final(self) == (RPG {
                level: (old(self).level + 1) as u8,
                max_health: (old(self).max_health + old(self).health_gain()) as u16,
                magic_experience: (old(self).magic_experience - 100 * old(self).magic_level) as u16,
                max_mana: (old(self).max_mana + old(self).mana_gain()) as u16,
                ..*old(self)
            }),
    {
        self.level_up();
        self.magic_experience = self.magic_experience - RPG::xp_needed_to_level_up(self.magic_level);
        let best = max(modifier(self.intelligence), modifier(self.wisdom));
        self.max_mana = self.max_mana + to_u16_wrapping(5 + best);
    }

    /// A martial level's worth of experience becomes a character level.
    pub fn level_up_martial(&mut self)
        requires
            old(self).wf(),
            old(self).level < 255,
            old(self).max_health + old(self).health_gain() <= u16::MAX,
            old(self).martial_experience >= 100 * old(self).martial_level,
            old(self).max_stamina + old(self).stamina_gain() <= u16::MAX,
        ensures
            *final(self) == (RPG {
                level: (old(self).level + 1) as u8,
                max_health: (old(self).max_health + old(self).health_gain()) as u16,
                martial_experience: (old(self).martial_experience - 100 * old(self).martial_level) as u16,
                max_stamina: (old(self).max_stamina + old(self).stamina_gain()) as u16,
                ..*old(self)
            }),
    {
        self.level_up();
        self.martial_experience = self.martial_experience - RPG::xp_needed_to_level_up(self.martial_level);
        self.max_stamina = self.max_stamina + to_u16_wrapping(5 + modifier(self.dexterity));
    }

    pub fn recalculate_max_health(&mut self)
        requires
            old(self).wf(),
            3 + old(self).health_gain() * old(self).level <= u16::MAX,
        ensures
            *final(self) == (RPG {
                max_health: (3 + old(self).health_gain() * old(self).level) as u16,
                ..*old(self)
            }),
    {
        let gain = to_u16_wrapping(5 + modifier(self.constitution));
        proof {
            assert(gain * self.level <= u16::MAX) by (nonlinear_arith)
                requires 3 + gain * self.level <= u16::MAX;
        }
        self.max_health = 3 + gain * self.level as u16;
    }

    pub fn recalculate_max_mana(&mut self)
        requires
            old(self).wf(),
            3 + old(self).mana_gain() * old(self).magic_level <= u16::MAX,
        ensures
            *final(self) == (RPG {
                max_mana: (3 + old(self).mana_gain() * old(self).magic_level) as u16,
                ..*old(self)
            }),
    {
        let best = max(modifier(self.intelligence), modifier(self.wisdom));
        let gain = to_u16_wrapping(5 + best);
        proof {
            assert(gain * self.magic_level <= u16::MAX) by (nonlinear_arith)
                requires 3 + gain * self.magic_level <= u16::MAX;
        }
        self.max_mana = 3 + gain * self.magic_level as u16;
    }

    pub fn recalculate_max_stamina(&mut self)
        requires
            old(self).wf(),
            3 + old(self).stamina_gain() * old(self).martial_level <= u16::MAX,
        ensures
            *final(self) == (RPG {
                max_stamina: (3 + old(self).stamina_gain() * old(self).martial_level) as u16,
                ..*old(self)
            }),
    {
        let gain = to_u16_wrapping(5 + modifier(self.dexterity));
        proof {
            assert(gain * self.martial_level <= u16::MAX) by (nonlinear_arith)
                requires 3 + gain * self.martial_level <= u16::MAX;
        }
        self.max_stamina = 3 + gain * self.martial_level as u16;
    }
}

impl RPG {
    /// `add_xp` stays within its integer types.
    pub open spec fn xp_fits(&self, xp: u16, t: ExperienceType) -> bool {
        let k = t.index_spec() as int;
        &&& self.experience_types@[k] + xp <= u16::MAX
        &&& self.experience_types@[k] + xp >= 100 * self.levels_experience_types@[k]
            ==> self.levels_experience_types@[k] < 255
        &&& t.index_spec() < 5 ==> {
            &&& self.martial_experience + xp <= u16::MAX
            &&& self.martial_experience + xp >= 100 * self.martial_level ==> {
                &&& self.level < 255
                &&& self.max_health + self.health_gain() <= u16::MAX
                &&& self.max_stamina + self.stamina_gain() <= u16::MAX
            }
        }
        &&& t.index_spec() >= 5 ==> {
            &&& self.magic_experience + xp <= u16::MAX
            &&& self.magic_experience + xp >= 100 * self.magic_level ==> {
                &&& self.level < 255
                &&& self.max_health + self.health_gain() <= u16::MAX
                &&& self.max_mana + self.mana_gain() <= u16::MAX
            }
        }
    }

    /// Adds experience of one kind: to the martial or magic pool, which
    /// levels the character up once it reaches 100 times its level, and to
    /// the kind's own pool, which levels the kind up the same way.
    pub fn add_xp(&mut self, xp: u16, experience_type: ExperienceType)
        requires
            old(self).wf(),
            old(self).xp_fits(xp, experience_type),
        ensures
            final(self).wf(),
            ({
                let o = *old(self);
                let f = *final(self);
                let e = o.martial_experience + xp;
                experience_type.index_spec() < 5 ==> f.magic_experience == o.magic_experience
                    && f.max_mana == o.max_mana && if e >= 100 * o.martial_level {
                    f.level == o.level + 1 && f.max_health == o.max_health + o.health_gain()
                        && f.martial_experience == e - 100 * o.martial_level && f.max_stamina
                        == o.max_stamina + o.stamina_gain()
                } else {
                    f.level == o.level && f.max_health == o.max_health && f.martial_experience == e
                        && f.max_stamina == o.max_stamina
                }
            }),
            ({
                let o = *old(self);
                let f = *final(self);
                let e = o.magic_experience + xp;
                experience_type.index_spec() >= 5 ==> f.martial_experience == o.martial_experience
                    && f.max_stamina == o.max_stamina && if e >= 100 * o.magic_level {
                    f.level == o.level + 1 && f.max_health == o.max_health + o.health_gain()
                        && f.magic_experience == e - 100 * o.magic_level && f.max_mana
                        == o.max_mana + o.mana_gain()
                } else {
                    f.level == o.level && f.max_health == o.max_health && f.magic_experience == e
                        && f.max_mana == o.max_mana
                }
            }),
            ({
                let o = *old(self);
                let f = *final(self);
                let k = experience_type.index_spec() as int;
                let x = o.experience_types@[k] + xp;
                let cl = o.levels_experience_types@[k];
                if x >= 100 * cl {
                    f.experience_types@ == o.experience_types@.update(k, (x - 100 * cl) as u16)
                        && f.levels_experience_types@ == o.levels_experience_types@.update(
                        k,
                        (cl + 1) as u8,
                    )
                } else {
                    f.experience_types@ == o.experience_types@.update(k, x as u16)
                        && f.levels_experience_types@ == o.levels_experience_types@
                }
            }),
            final(self).magic_level == old(self).magic_level,
            final(self).martial_level == old(self).martial_level,
            final(self).strength == old(self).strength && final(self).dexterity == old(self).dexterity,
            final(self).intelligence == old(self).intelligence && final(self).wisdom == old(self).wisdom,
            final(self).charisma == old(self).charisma && final(self).constitution == old(self).constitution,
    {
        if experience_type.is_martial() {
            self.martial_experience = self.martial_experience + xp;
            if self.martial_experience >= RPG::xp_needed_to_level_up(self.martial_level) {
                self.level_up_martial();
            }
        } else {
            self.magic_experience = self.magic_experience + xp;
            if self.magic_experience >= RPG::xp_needed_to_level_up(self.magic_level) {
                self.level_up_magic();
            }
        }
        let k = experience_type.index();
        let cur_level = self.levels_experience_types[k];
        let cur_experience = self.experience_types[k] + xp;
        let needed = RPG::xp_needed_to_level_up(cur_level);
        if cur_experience >= needed {
            self.experience_types.set(k, cur_experience - needed);
            self.levels_experience_types.set(k, cur_level + 1);
        } else {
            self.experience_types.set(k, cur_experience);
        }
    }
}

/// Whether `modifier` accepts `stat`.
pub fn valid_stat_byte(stat: u8) -> (r: bool)
    ensures
        r == valid_stat(stat),
{
    stat < 128 || stat >= 138
}

impl RPG {
    /// Whether `add_xp` may be called: it tests `xp_fits`.
    pub fn can_add_xp(&self, xp: u16, experience_type: ExperienceType) -> (r: bool)
        requires
            self.wf(),
        ensures
            r == self.xp_fits(xp, experience_type),
    {
        let k = experience_type.index();
        let x = self.experience_types[k] as u32 + xp as u32;
        if x > 65535 {
            return false;
        }
        if x >= 100 * self.levels_experience_types[k] as u32 && self.levels_experience_types[k] == 255 {
            return false;
        }
        let health = self.max_health as u32 + to_u16_wrapping(5 + modifier(self.constitution)) as u32;
        let (pool, level) = if experience_type.is_martial() {
            (self.martial_experience as u32 + xp as u32, self.martial_level)
        } else {
            (self.magic_experience as u32 + xp as u32, self.magic_level)
        };
        if pool > 65535 {
            return false;
        }
        if pool < 100 * level as u32 {
            return true;
        }
        let gain = if experience_type.is_martial() {
            self.max_stamina as u32 + to_u16_wrapping(5 + modifier(self.dexterity)) as u32
        } else {
            let best = max(modifier(self.intelligence), modifier(self.wisdom));
            self.max_mana as u32 + to_u16_wrapping(5 + best) as u32
        };
        self.level < 255 && health <= 65535 && gain <= 65535
    }
}

} // verus!
