//! The spawn table: which spawn function each entity classname uses, and
//! the registration of the target and monster classnames.

use vstd::prelude::*;
use crate::items::GameWorld;
use crate::text::{chars_equal, str_chars};

verus! {

/// A spawn function an entity classname can be registered with.
#[derive(Debug, Clone, Copy, PartialEq, Eq, Structural)]
pub enum SpawnFn {
    TargetGeneric,
    TargetSpeaker,
    TargetExplosion,
    TargetChangelevel,
    TargetSecret,
    TargetGoal,
    MonsterSoldierLight,
    MonsterSoldier,
    MonsterSoldierSs,
    MonsterInfantry,
    MonsterGunner,
    MonsterGladiator,
    MonsterBerserker,
    MonsterBrain,
    MonsterChick,
    MonsterFlipper,
    MonsterFloater,
    MonsterFlyer,
    MonsterHover,
    MonsterMedic,
    MonsterMutant,
    MonsterParasite,
    MonsterInsane,
    MonsterTank,
    MonsterTankCommander,
    MonsterSupertank,
    MonsterBoss2,
    MonsterBoss3Stand,
    MonsterMakron,
    MonsterJorg,
    TurretBreach,
    TurretBase,
    TurretDriver,
}

/// Classnames and the spawn function registered for each.
pub struct SpawnTable {
    names: Vec<Vec<char>>,
    fns: Vec<SpawnFn>,
}

/// The characters of each name.
pub open spec fn name_chars(v: Seq<Vec<char>>) -> Seq<Seq<char>> {
    v.map_values(|c: Vec<char>| c@)
}

impl View for SpawnTable {
    type V = Map<Seq<char>, SpawnFn>;

    closed spec fn view(&self) -> Map<Seq<char>, SpawnFn> {
        Map::new(
            |k: Seq<char>| name_chars(self.names@).contains(k),
            |k: Seq<char>| self.fns@[name_chars(self.names@).index_of(k)],
        )
    }
}

impl SpawnTable {
    /// One function per name, and no name twice.
    pub closed spec fn wf(&self) -> bool {
        &&& self.names@.len() == self.fns@.len()
        &&& name_chars(self.names@).no_duplicates()
    }

    /// An empty table.
    pub fn new() -> (r: Self)
        ensures
            r.wf(),
            r@ == Map::<Seq<char>, SpawnFn>::empty(),
    {
        let r = SpawnTable { names: Vec::new(), fns: Vec::new() };
        assert(r@ =~= Map::<Seq<char>, SpawnFn>::empty());
        r
    }

    fn position(&self, name: &[char]) -> (r: Option<usize>)
        requires
            self.wf(),
        ensures
            r is None ==> !name_chars(self.names@).contains(name@),
            r matches Some(k) ==> k < self.names@.len() && self.names@[k as int]@ == name@,
    {
        let mut k: usize = 0;
        while k < self.names.len()
            invariant
                0 <= k <= self.names@.len(),
                forall|j: int| 0 <= j < k ==> self.names@[j]@ != name@,
            decreases self.names@.len() - k,
        {
            if chars_equal(self.names[k].as_slice(), name) {
                return Some(k);
            }
            k = k + 1;
        }
        proof {
            if name_chars(self.names@).contains(name@) {
                let j = name_chars(self.names@).index_of(name@);
                assert(self.names@[j]@ == name@);
            }
        }
        None
    }

    /// Register `f` for `name`, replacing an earlier registration.
    pub fn insert(&mut self, name: &str, f: SpawnFn)
        requires
            old(self).wf(),
        ensures
            final(self).wf(),
            final(self)@ == old(self)@.insert(name@, f),
    {
        let key = str_chars(name);
        let ghost on = name_chars(self.names@);
        let ghost of = self.fns@;
        match self.position(key.as_slice()) {
            Some(k) => {
                self.fns.set(k, f);
                proof {
                    assert(name_chars(self.names@) == on);
                    assert(on[k as int] == name@);
                    assert(on.contains(name@));
                    assert forall|x: Seq<char>| #[trigger] on.contains(x) implies self@[x]
                        == old(self)@.insert(name@, f)[x] by {
                        let j = on.index_of(x);
                        assert(0 <= j < on.len() && on[j] == x);
                        if x == name@ {
                            assert(j == k);
                        } else {
                            assert(j != k);
                        }
                    }
                    assert(self@ =~= old(self)@.insert(name@, f));
                }
            },
            None => {
                self.names.push(key);
                self.fns.push(f);
                proof {
                    let nn = on.push(name@);
                    assert(name_chars(self.names@) =~= nn);
                    assert(nn.no_duplicates()) by {
                        assert forall|a: int, b: int|
                            0 <= a < nn.len() && 0 <= b < nn.len() && a != b implies nn[a] != nn[b] by {
                            if a == on.len() {
                                assert(nn[b] == on[b]);
                            } else if b == on.len() {
                                assert(nn[a] == on[a]);
                            }
                        }
                    }
                    assert forall|x: Seq<char>| #[trigger] nn.contains(x) implies self@[x]
                        == old(self)@.insert(name@, f)[x] by {
                        let j = nn.index_of(x);
                        assert(0 <= j < nn.len() && nn[j] == x);
                        if x == name@ {
                            assert(j == on.len());
                        } else {
                            let i = on.index_of(x);
                            assert(on[i] == x);
                            assert(nn[i] == x);
                            assert(i == j);
                        }
                    }
                    assert(self@.dom() =~= old(self)@.insert(name@, f).dom()) by {
                        assert forall|x: Seq<char>| nn.contains(x) <==> (on.contains(x) || x == name@) by {
                            if nn.contains(x) && x != name@ {
                                let j = nn.index_of(x);
                                assert(on[j] == x);
                            }
                            if on.contains(x) {
                                let i = on.index_of(x);
                                assert(nn[i] == x);
                            }
                            if x == name@ {
                                assert(nn[on.len() as int] == x);
                            }
                        }
                    }
                    assert(self@ =~= old(self)@.insert(name@, f));
                }
            },
        }
    }

    /// The spawn function registered for `name`, if any.
    pub fn get(&self, name: &str) -> (r: Option<SpawnFn>)
        requires
            self.wf(),
        ensures
            r == (if self@.contains_key(name@) { Some(self@[name@]) } else { None }),
    {
        let key = str_chars(name);
        match self.position(key.as_slice()) {
            Some(k) => {
                proof {
                    let nc = name_chars(self.names@);
                    assert(nc[k as int] == name@);
                    let j = nc.index_of(name@);
                    assert(nc[j] == name@);
                    assert(j == k);
                }
                Some(self.fns[k])
            },
            None => None,
        }
    }
}

/// The table with every target classname registered, in order.
pub open spec fn with_target_spawns(m: Map<Seq<char>, SpawnFn>) -> Map<Seq<char>, SpawnFn> {
    m
        .insert("target_temp_entity"@, SpawnFn::TargetGeneric)
        .insert("target_speaker"@, SpawnFn::TargetSpeaker)
        .insert("target_explosion"@, SpawnFn::TargetExplosion)
        .insert("target_changelevel"@, SpawnFn::TargetChangelevel)
        .insert("target_secret"@, SpawnFn::TargetSecret)
        .insert("target_goal"@, SpawnFn::TargetGoal)
        .insert("target_splash"@, SpawnFn::TargetGeneric)
        .insert("target_spawner"@, SpawnFn::TargetGeneric)
        .insert("target_blaster"@, SpawnFn::TargetGeneric)
        .insert("target_crosslevel_trigger"@, SpawnFn::TargetGeneric)
        .insert("target_crosslevel_target"@, SpawnFn::TargetGeneric)
        .insert("target_laser"@, SpawnFn::TargetGeneric)
        .insert("target_help"@, SpawnFn::TargetGeneric)
        .insert("target_lightramp"@, SpawnFn::TargetGeneric)
        .insert("target_earthquake"@, SpawnFn::TargetGeneric)
        .insert("target_character"@, SpawnFn::TargetGeneric)
        .insert("target_string"@, SpawnFn::TargetGeneric)
}

/// The table with every monster and turret classname registered, in order.
pub open spec fn with_monster_spawns(m: Map<Seq<char>, SpawnFn>) -> Map<Seq<char>, SpawnFn> {
    m
        .insert("monster_soldier_light"@, SpawnFn::MonsterSoldierLight)
        .insert("monster_soldier"@, SpawnFn::MonsterSoldier)
        .insert("monster_soldier_ss"@, SpawnFn::MonsterSoldierSs)
        .insert("monster_infantry"@, SpawnFn::MonsterInfantry)
        .insert("monster_gunner"@, SpawnFn::MonsterGunner)
        .insert("monster_gladiator"@, SpawnFn::MonsterGladiator)
        .insert("monster_berserker"@, SpawnFn::MonsterBerserker)
        .insert("monster_brain"@, SpawnFn::MonsterBrain)
        .insert("monster_chick"@, SpawnFn::MonsterChick)
        .insert("monster_flipper"@, SpawnFn::MonsterFlipper)
        .insert("monster_floater"@, SpawnFn::MonsterFloater)
        .insert("monster_flyer"@, SpawnFn::MonsterFlyer)
        .insert("monster_hover"@, SpawnFn::MonsterHover)
        .insert("monster_medic"@, SpawnFn::MonsterMedic)
        .insert("monster_mutant"@, SpawnFn::MonsterMutant)
        .insert("monster_parasite"@, SpawnFn::MonsterParasite)
        .insert("monster_insane"@, SpawnFn::MonsterInsane)
        .insert("monster_tank"@, SpawnFn::MonsterTank)
        .insert("monster_tank_commander"@, SpawnFn::MonsterTankCommander)
        .insert("monster_supertank"@, SpawnFn::MonsterSupertank)
        .insert("monster_boss2"@, SpawnFn::MonsterBoss2)
        .insert("monster_boss3_stand"@, SpawnFn::MonsterBoss3Stand)
        .insert("monster_makron"@, SpawnFn::MonsterMakron)
        .insert("monster_jorg"@, SpawnFn::MonsterJorg)
        .insert("turret_breach"@, SpawnFn::TurretBreach)
        .insert("turret_base"@, SpawnFn::TurretBase)
        .insert("turret_driver"@, SpawnFn::TurretDriver)
}

impl GameWorld {
    /// Register all target spawn functions.
    pub fn register_target_spawns(&mut self)
        requires
            old(self).spawn_table.wf(),
        ensures
            final(self).spawn_table.wf(),
            final(self).spawn_table@ == with_target_spawns(old(self).spawn_table@),
            final(self).items@ == old(self).items@,
    {
        self.spawn_table.insert("target_temp_entity", SpawnFn::TargetGeneric);
        self.spawn_table.insert("target_speaker", SpawnFn::TargetSpeaker);
        self.spawn_table.insert("target_explosion", SpawnFn::TargetExplosion);
        self.spawn_table.insert("target_changelevel", SpawnFn::TargetChangelevel);
        self.spawn_table.insert("target_secret", SpawnFn::TargetSecret);
        self.spawn_table.insert("target_goal", SpawnFn::TargetGoal);
        self.spawn_table.insert("target_splash", SpawnFn::TargetGeneric);
        self.spawn_table.insert("target_spawner", SpawnFn::TargetGeneric);
        self.spawn_table.insert("target_blaster", SpawnFn::TargetGeneric);
        self.spawn_table.insert("target_crosslevel_trigger", SpawnFn::TargetGeneric);
        self.spawn_table.insert("target_crosslevel_target", SpawnFn::TargetGeneric);
        self.spawn_table.insert("target_laser", SpawnFn::TargetGeneric);
        self.spawn_table.insert("target_help", SpawnFn::TargetGeneric);
        self.spawn_table.insert("target_lightramp", SpawnFn::TargetGeneric);
        self.spawn_table.insert("target_earthquake", SpawnFn::TargetGeneric);
        self.spawn_table.insert("target_character", SpawnFn::TargetGeneric);
        self.spawn_table.insert("target_string", SpawnFn::TargetGeneric);
    }

    /// Register all monster spawn functions.
    pub fn register_monster_spawns(&mut self)
        requires
            old(self).spawn_table.wf(),
        ensures
            final(self).spawn_table.wf(),
            final(self).spawn_table@ == with_monster_spawns(old(self).spawn_table@),
            final(self).items@ == old(self).items@,
    {
        self.spawn_table.insert("monster_soldier_light", SpawnFn::MonsterSoldierLight);
        self.spawn_table.insert("monster_soldier", SpawnFn::MonsterSoldier);
        self.spawn_table.insert("monster_soldier_ss", SpawnFn::MonsterSoldierSs);
        self.spawn_table.insert("monster_infantry", SpawnFn::MonsterInfantry);
        self.spawn_table.insert("monster_gunner", SpawnFn::MonsterGunner);
        self.spawn_table.insert("monster_gladiator", SpawnFn::MonsterGladiator);
        self.spawn_table.insert("monster_berserker", SpawnFn::MonsterBerserker);
        self.spawn_table.insert("monster_brain", SpawnFn::MonsterBrain);
        self.spawn_table.insert("monster_chick", SpawnFn::MonsterChick);
        self.spawn_table.insert("monster_flipper", SpawnFn::MonsterFlipper);
        self.spawn_table.insert("monster_floater", SpawnFn::MonsterFloater);
        self.spawn_table.insert("monster_flyer", SpawnFn::MonsterFlyer);
        self.spawn_table.insert("monster_hover", SpawnFn::MonsterHover);
        self.spawn_table.insert("monster_medic", SpawnFn::MonsterMedic);
        self.spawn_table.insert("monster_mutant", SpawnFn::MonsterMutant);
        self.spawn_table.insert("monster_parasite", SpawnFn::MonsterParasite);
        self.spawn_table.insert("monster_insane", SpawnFn::MonsterInsane);
        self.spawn_table.insert("monster_tank", SpawnFn::MonsterTank);
        self.spawn_table.insert("monster_tank_commander", SpawnFn::MonsterTankCommander);
        self.spawn_table.insert("monster_supertank", SpawnFn::MonsterSupertank);
        self.spawn_table.insert("monster_boss2", SpawnFn::MonsterBoss2);
        self.spawn_table.insert("monster_boss3_stand", SpawnFn::MonsterBoss3Stand);
        self.spawn_table.insert("monster_makron", SpawnFn::MonsterMakron);
        self.spawn_table.insert("monster_jorg", SpawnFn::MonsterJorg);
        self.spawn_table.insert("turret_breach", SpawnFn::TurretBreach);
        self.spawn_table.insert("turret_base", SpawnFn::TurretBase);
        self.spawn_table.insert("turret_driver", SpawnFn::TurretDriver);
    }
}

} // verus!
