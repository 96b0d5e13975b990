//! The equipment catalog: each item's shape and base numbers, its effects, and the
//! star profiles of the weapons. Attacks, intervals, seconds and multipliers are in
//! thousandths.
use vstd::prelude::*;
use crate::text;

verus! {

/// The kind of a piece of equipment.
#[derive(Clone, Copy, Debug, PartialEq, Eq, Structural)]
pub enum Kind {
    Weapon,
    Charm,
    Potion,
    Soul,
    Armor,
}

/// The base definition of a piece of equipment: names, kind, bag shape (`w` by `h`),
/// attack and action interval.
#[derive(Clone, Copy, Debug)]
pub struct Def {
    pub short: &'static str,
    pub full: &'static str,
    pub kind: Kind,
    pub w: usize,
    pub h: usize,
    pub attack: u64,
    pub interval: u64,
}

pub struct DefView {
    pub short: Seq<char>,
    pub full: Seq<char>,
    pub kind: Kind,
    pub w: usize,
    pub h: usize,
    pub attack: u64,
    pub interval: u64,
}

impl View for Def {
    type V = DefView;

    open spec fn view(&self) -> DefView {
        DefView {
            short: self.short@,
            full: self.full@,
            kind: self.kind,
            w: self.w,
            h: self.h,
            attack: self.attack,
            interval: self.interval,
        }
    }
}

impl Def {
    /// An item that acts on its own timer: a weapon or a charm.
    pub fn active(&self) -> (r: bool)
        ensures
            r == (self.kind == Kind::Weapon || self.kind == Kind::Charm),
    {
        self.kind == Kind::Weapon || self.kind == Kind::Charm
    }

    /// A weapon.
    pub fn weapon(&self) -> (r: bool)
        ensures
            r == (self.kind == Kind::Weapon),
    {
        self.kind == Kind::Weapon
    }
}

/// When an effect fires.
#[derive(Clone, Copy, Debug, PartialEq, Eq, Structural)]
pub enum Trigger {
    BattleStart,
    ActiveUse,
    NormalAttack,
    ChargedAttack,
    OnHit,
    OnNormalHit,
    OnChargedHit,
    OnCriticalHit,
    OnFreeze,
    OnHeal,
    OnParry,
    OnDisabled,
    OnDamaged,
    Passive,
}

/// What an effect acts on.
#[derive(Clone, Copy, Debug, PartialEq, Eq, Structural)]
pub enum Target {
    EnemyRandomActiveItems(u32),
    EnemyAllActiveItems,
    OwnRandomActiveItems(u32),
    OwnAllActiveItems,
    OwnAdjacentActiveItems,
    OwnAllWeapons,
    OwnAdjacentWeapons,
    ThisWeapon,
}

/// How much damage an attack deals.
#[derive(Clone, Copy, Debug, PartialEq, Eq, Structural)]
pub enum DamageAmount {
    WeaponAttack,
    /// The weapon's attack times a factor in thousandths.
    WeaponAttackMultiplier(u64),
}

/// One effect; seconds and percentages are in thousandths.
#[derive(Clone, Copy, Debug, PartialEq, Eq, Structural)]
pub enum Effect {
    Damage(DamageAmount),
    Sword(i32),
    ConsumeSword(i32),
    EnemySword(i32),
    Freeze { target: Target, seconds: u64 },
    Slow { target: Target, seconds: u64 },
    Accelerate { target: Target, seconds: u64 },
    Charge { target: Target, seconds: u64 },
    AttackBonus { target: Target, amount: i32, max_stacks: Option<u32> },
    LifeStealPct { target: Target, pct: u64, max_stacks: Option<u32> },
    MaxHp(i32),
    Heal(i32),
    Armor(i32),
    DamageReductionPct(u64),
    Uses(u32),
}

/// The effects a trigger fires.
#[derive(Clone, Debug)]
pub struct EffectSpec {
    pub trigger: Trigger,
    pub effects: Vec<Effect>,
}

impl View for EffectSpec {
    type V = (Trigger, Seq<Effect>);

    open spec fn view(&self) -> (Trigger, Seq<Effect>) {
        (self.trigger, self.effects@)
    }
}

/// A catalog entry: the definition and its effects.
#[derive(Clone, Debug)]
pub struct EquipmentSpec {
    pub def: Def,
    pub properties: Vec<EffectSpec>,
}

/// A star tier of a weapon: attack and interval in thousandths, the sword its normal
/// attack gives, its per-freeze attack bonus and the enemy sword its charged attack takes.
#[derive(Clone, Copy, Debug, PartialEq, Eq, Structural)]
pub struct StarProfile {
    pub star: u8,
    pub attack: u64,
    pub interval: u64,
    pub normal_sword: i32,
    pub freeze_attack_bonus: Option<i32>,
    pub charged_enemy_sword: Option<i32>,
}

pub open spec fn dv(
    short: &str,
    full: &str,
    kind: Kind,
    w: usize,
    h: usize,
    attack: u64,
    interval: u64,
) -> DefView {
    DefView { short: short@, full: full@, kind, w, h, attack, interval }
}

/// The catalog's definitions, in catalog order.
pub open spec fn catalog_defs() -> Seq<DefView> {
    seq![
        dv("百战", "百战魂玉", Kind::Soul, 1, 1, 0, 0),
        dv("战神", "战神魂玉", Kind::Soul, 1, 1, 0, 0),
        dv("冻结", "冻结魂玉", Kind::Soul, 1, 1, 0, 0),
        dv("天响", "天响魂玉", Kind::Soul, 1, 1, 0, 0),
        dv("冰髓", "冰髓护符", Kind::Charm, 2, 2, 0, 8000),
        dv("嗜血", "嗜血魂玉", Kind::Soul, 1, 1, 0, 0),
        dv("破势", "破势魂玉", Kind::Soul, 1, 1, 0, 0),
        dv("缚命环", "缚命环", Kind::Charm, 2, 2, 0, 5500),
        dv("催破", "催破魂玉", Kind::Soul, 1, 1, 0, 0),
        dv("锋锐", "锋锐魂玉", Kind::Soul, 1, 1, 0, 0),
        dv("续命术", "续命术魂玉", Kind::Soul, 1, 1, 0, 0),
        dv("快意", "快意魂玉", Kind::Soul, 1, 1, 0, 0),
        dv("穿颅", "穿颅魂玉", Kind::Soul, 1, 1, 0, 0),
        dv("冰魄", "冰魄近战武器", Kind::Weapon, 1, 3, 110000, 7000),
        dv("吐纳", "吐纳术魂玉", Kind::Soul, 1, 1, 0, 0),
        dv("玄武", "玄武之力", Kind::Potion, 1, 1, 0, 0),
        dv("寒冰核", "寒冰核护符", Kind::Charm, 2, 2, 0, 6000),
        dv("蜃景苞", "蜃景苞护符", Kind::Charm, 2, 2, 0, 7500),
        dv("铸盾", "铸盾魂玉", Kind::Soul, 1, 1, 0, 0),
        dv("通达", "通达魂玉", Kind::Soul, 1, 1, 0, 0),
        dv("神将甲", "神将甲护甲", Kind::Armor, 2, 3, 0, 0),
        dv("龙弧", "龙弧近战武器", Kind::Weapon, 2, 2, 75000, 6000),
        dv("白虎之力", "白虎之力", Kind::Potion, 1, 1, 0, 0),
        dv("振魄", "振魄魂玉", Kind::Soul, 1, 1, 0, 0),
        dv("混沌", "混沌魂玉", Kind::Soul, 1, 1, 0, 0),
        dv("烛神令", "烛神令", Kind::Weapon, 1, 3, 125000, 6500),
        dv("凌波", "凌波魂玉", Kind::Soul, 1, 1, 0, 0),
    ]
}

/// The effects of each catalog entry, by trigger, in catalog order.
pub open spec fn catalog_properties() -> Seq<Seq<(Trigger, Seq<Effect>)>> {
    seq![
        seq![
            (Trigger::BattleStart, seq![Effect::MaxHp(180), Effect::Heal(180)]),
            (
                Trigger::OnHeal,
                seq![Effect::AttackBonus { target: Target::OwnAllWeapons, amount: 16, max_stacks: Some(10) }],
            ),
            ],
        seq![
            (
                Trigger::OnHeal,
                seq![Effect::Accelerate { target: Target::OwnAdjacentWeapons, seconds: 2500 }],
            ),
            ],
        seq![(Trigger::OnDamaged, seq![Effect::Freeze { target: Target::EnemyRandomActiveItems(1), seconds: 2000 }])],
        seq![
            (Trigger::BattleStart, seq![Effect::Sword(22)]),
            (
                Trigger::OnParry,
                seq![Effect::Charge { target: Target::OwnAllActiveItems, seconds: 1500 }],
            ),
            ],
        seq![
            (Trigger::ActiveUse, seq![Effect::Freeze { target: Target::EnemyRandomActiveItems(2), seconds: 1500 }]),
            (Trigger::OnFreeze, seq![Effect::Sword(10)]),
            ],
        seq![
            (
                Trigger::OnCriticalHit,
                seq![Effect::LifeStealPct { target: Target::OwnAllWeapons, pct: 6000, max_stacks: Some(20) }],
            ),
            ],
        seq![(Trigger::OnHit, seq![Effect::EnemySword(-12i32)])],
        seq![(Trigger::ActiveUse, seq![Effect::Heal(90)]), (Trigger::Passive, seq![Effect::Heal(40)])],
        seq![
            (
                Trigger::OnNormalHit,
                seq![Effect::Accelerate { target: Target::OwnRandomActiveItems(1), seconds: 4000 }],
            ),
            ],
        seq![(Trigger::OnHit, seq![Effect::Slow { target: Target::EnemyRandomActiveItems(1), seconds: 4000 }])],
        seq![(Trigger::OnFreeze, seq![Effect::Heal(70)])],
        seq![
            (
                Trigger::OnFreeze,
                seq![Effect::Accelerate { target: Target::OwnAdjacentActiveItems, seconds: 4000 }],
            ),
            ],
        seq![
            (
                Trigger::BattleStart,
                seq![
                    Effect::Accelerate { target: Target::OwnAllWeapons, seconds: 6000 },
                    Effect::Charge { target: Target::OwnAdjacentActiveItems, seconds: 3000 },
                ],
            ),
            ],
        seq![
            (
                Trigger::NormalAttack,
                seq![
                    Effect::Damage(DamageAmount::WeaponAttack),
                    Effect::Sword(16),
                    Effect::Freeze { target: Target::EnemyRandomActiveItems(2), seconds: 2000 },
                ],
            ),
            (
                Trigger::OnFreeze,
                seq![Effect::AttackBonus { target: Target::OwnAllWeapons, amount: 35, max_stacks: Some(7) }],
            ),
            ],
        seq![
            (
                Trigger::OnHeal,
                seq![Effect::AttackBonus { target: Target::OwnAdjacentWeapons, amount: 15, max_stacks: Some(20) }],
            ),
            ],
        seq![
            (
                Trigger::OnNormalHit,
                seq![
                    Effect::Uses(1),
                    Effect::MaxHp(200),
                    Effect::Heal(200),
                    Effect::AttackBonus { target: Target::OwnAllWeapons, amount: 40, max_stacks: None },
                    Effect::Accelerate { target: Target::OwnAllWeapons, seconds: 3000 },
                ],
            ),
            ],
        seq![
            (Trigger::ActiveUse, seq![Effect::Freeze { target: Target::EnemyRandomActiveItems(1), seconds: 3500 }]),
            (Trigger::OnNormalHit, seq![Effect::Slow { target: Target::EnemyRandomActiveItems(1), seconds: 1000 }]),
            ],
        seq![
            (Trigger::ActiveUse, seq![Effect::Freeze { target: Target::EnemyRandomActiveItems(1), seconds: 1100 }]),
            (
                Trigger::OnFreeze,
                seq![Effect::Charge { target: Target::OwnRandomActiveItems(1), seconds: 1500 }],
            ),
            ],
        seq![(Trigger::OnHeal, seq![Effect::Armor(45)])],
        seq![
            (
                Trigger::BattleStart,
                seq![Effect::Accelerate { target: Target::OwnAllActiveItems, seconds: 2000 }],
            ),
            (
                Trigger::Passive,
                seq![Effect::AttackBonus { target: Target::OwnAdjacentWeapons, amount: 18, max_stacks: Some(20) }],
            ),
            ],
        seq![
            (Trigger::BattleStart, seq![Effect::Armor(300), Effect::DamageReductionPct(5000)]),
            (Trigger::OnDisabled, seq![Effect::Armor(15), Effect::Heal(15)]),
            ],
        seq![
            (
                Trigger::ChargedAttack,
                seq![
                    Effect::ConsumeSword(28),
                    Effect::Damage(DamageAmount::WeaponAttackMultiplier(3700)),
                    Effect::EnemySword(-16i32),
                    Effect::Freeze { target: Target::EnemyRandomActiveItems(1), seconds: 2000 },
                ],
            ),
            (Trigger::NormalAttack, seq![Effect::Damage(DamageAmount::WeaponAttack), Effect::Sword(16)]),
            ],
        seq![
            (
                Trigger::OnHit,
                seq![
                    Effect::Uses(1),
                    Effect::Freeze { target: Target::EnemyAllActiveItems, seconds: 3000 },
                    Effect::AttackBonus { target: Target::OwnAllWeapons, amount: 100, max_stacks: None },
                ],
            ),
            ],
        seq![
            (Trigger::BattleStart, seq![Effect::Sword(20)]),
            (
                Trigger::OnChargedHit,
                seq![Effect::Sword(20), Effect::Freeze { target: Target::EnemyRandomActiveItems(1), seconds: 1000 }],
            ),
            ],
        seq![
            (Trigger::BattleStart, seq![Effect::Sword(20)]),
            (Trigger::NormalAttack, seq![Effect::Sword(8)]),
            (Trigger::OnParry, seq![Effect::Accelerate { target: Target::OwnAllWeapons, seconds: 4000 }]),
            ],
        seq![
            (Trigger::BattleStart, seq![Effect::Sword(20)]),
            (
                Trigger::ChargedAttack,
                seq![
                    Effect::ConsumeSword(24),
                    Effect::Damage(DamageAmount::WeaponAttackMultiplier(2250)),
                    Effect::Heal(4),
                ],
            ),
            (
                Trigger::NormalAttack,
                seq![Effect::Damage(DamageAmount::WeaponAttack), Effect::Sword(14), Effect::Heal(4)],
            ),
            (Trigger::OnHeal, seq![Effect::Charge { target: Target::ThisWeapon, seconds: 1000 }]),
            ],
        seq![(Trigger::OnHeal, seq![Effect::Slow { target: Target::EnemyRandomActiveItems(1), seconds: 4000 }])],
    ]
}

pub open spec fn spec_properties_of(v: Seq<EquipmentSpec>) -> Seq<Seq<(Trigger, Seq<Effect>)>> {
    v.map_values(|e: EquipmentSpec| e.properties@.map_values(|p: EffectSpec| p@))
}

pub open spec fn spec_defs_of(v: Seq<EquipmentSpec>) -> Seq<DefView> {
    v.map_values(|e: EquipmentSpec| e.def@)
}

fn def(short: &'static str, full: &'static str, kind: Kind, w: usize, h: usize, attack: u64, interval: u64) -> (r: Def)
    ensures
        r@ == dv(short, full, kind, w, h, attack, interval),
{
    Def { short, full, kind, w, h, attack, interval }
}

fn on(trigger: Trigger, effects: Vec<Effect>) -> (r: EffectSpec)
    ensures
        r@ == (trigger, effects@),
{
    EffectSpec { trigger, effects }
}

fn entry(d: Def, properties: Vec<EffectSpec>) -> (r: EquipmentSpec)
    ensures
        r.def == d,
        r.properties@ == properties@,
{
    EquipmentSpec { def: d, properties }
}

fn enemy_random(n: u32) -> (r: Target)
    ensures
        r == Target::EnemyRandomActiveItems(n),
{
    Target::EnemyRandomActiveItems(n)
}

/// Every piece of equipment in the catalog, in catalog order, with its effects.
pub fn all() -> (r: Vec<EquipmentSpec>)
    ensures
        spec_defs_of(r@) == catalog_defs(),
        spec_properties_of(r@) == catalog_properties(),
{
    let mut v: Vec<EquipmentSpec> = Vec::new();
    v.push(
        entry(
            def("百战", "百战魂玉", Kind::Soul, 1, 1, 0, 0),
            vec![
                on(Trigger::BattleStart, vec![Effect::MaxHp(180), Effect::Heal(180)]),
                on(
                    Trigger::OnHeal,
                    vec![Effect::AttackBonus { target: Target::OwnAllWeapons, amount: 16, max_stacks: Some(10) }],
                ),
            ],
        ),
    );
    v.push(
        entry(
            def("战神", "战神魂玉", Kind::Soul, 1, 1, 0, 0),
            vec![
                on(
                    Trigger::OnHeal,
                    vec![Effect::Accelerate { target: Target::OwnAdjacentWeapons, seconds: 2500 }],
                ),
            ],
        ),
    );
    v.push(
        entry(
            def("冻结", "冻结魂玉", Kind::Soul, 1, 1, 0, 0),
            vec![on(Trigger::OnDamaged, vec![Effect::Freeze { target: enemy_random(1), seconds: 2000 }])],
        ),
    );
    v.push(
        entry(
            def("天响", "天响魂玉", Kind::Soul, 1, 1, 0, 0),
            vec![
                on(Trigger::BattleStart, vec![Effect::Sword(22)]),
                on(
                    Trigger::OnParry,
                    vec![Effect::Charge { target: Target::OwnAllActiveItems, seconds: 1500 }],
                ),
            ],
        ),
    );
    v.push(
        entry(
            def("冰髓", "冰髓护符", Kind::Charm, 2, 2, 0, 8000),
            vec![
                on(Trigger::ActiveUse, vec![Effect::Freeze { target: enemy_random(2), seconds: 1500 }]),
                on(Trigger::OnFreeze, vec![Effect::Sword(10)]),
            ],
        ),
    );
    v.push(
        entry(
            def("嗜血", "嗜血魂玉", Kind::Soul, 1, 1, 0, 0),
            vec![
                on(
                    Trigger::OnCriticalHit,
                    vec![Effect::LifeStealPct { target: Target::OwnAllWeapons, pct: 6000, max_stacks: Some(20) }],
                ),
            ],
        ),
    );
    v.push(
        entry(
            def("破势", "破势魂玉", Kind::Soul, 1, 1, 0, 0),
            vec![on(Trigger::OnHit, vec![Effect::EnemySword(-12)])],
        ),
    );
    v.push(
        entry(
            def("缚命环", "缚命环", Kind::Charm, 2, 2, 0, 5500),
            vec![on(Trigger::ActiveUse, vec![Effect::Heal(90)]), on(Trigger::Passive, vec![Effect::Heal(40)])],
        ),
    );
    v.push(
        entry(
            def("催破", "催破魂玉", Kind::Soul, 1, 1, 0, 0),
            vec![
                on(
                    Trigger::OnNormalHit,
                    vec![Effect::Accelerate { target: Target::OwnRandomActiveItems(1), seconds: 4000 }],
                ),
            ],
        ),
    );
    v.push(
        entry(
            def("锋锐", "锋锐魂玉", Kind::Soul, 1, 1, 0, 0),
            vec![on(Trigger::OnHit, vec![Effect::Slow { target: enemy_random(1), seconds: 4000 }])],
        ),
    );
    v.push(
        entry(
            def("续命术", "续命术魂玉", Kind::Soul, 1, 1, 0, 0),
            vec![on(Trigger::OnFreeze, vec![Effect::Heal(70)])],
        ),
    );
    v.push(
        entry(
            def("快意", "快意魂玉", Kind::Soul, 1, 1, 0, 0),
            vec![
                on(
                    Trigger::OnFreeze,
                    vec![Effect::Accelerate { target: Target::OwnAdjacentActiveItems, seconds: 4000 }],
                ),
            ],
        ),
    );
    v.push(
        entry(
            def("穿颅", "穿颅魂玉", Kind::Soul, 1, 1, 0, 0),
            vec![
                on(
                    Trigger::BattleStart,
                    vec![
                        Effect::Accelerate { target: Target::OwnAllWeapons, seconds: 6000 },
                        Effect::Charge { target: Target::OwnAdjacentActiveItems, seconds: 3000 },
                    ],
                ),
            ],
        ),
    );
    v.push(
        entry(
            def("冰魄", "冰魄近战武器", Kind::Weapon, 1, 3, 110000, 7000),
            vec![
                on(
                    Trigger::NormalAttack,
                    vec![
                        Effect::Damage(DamageAmount::WeaponAttack),
                        Effect::Sword(16),
                        Effect::Freeze { target: enemy_random(2), seconds: 2000 },
                    ],
                ),
                on(
                    Trigger::OnFreeze,
                    vec![Effect::AttackBonus { target: Target::OwnAllWeapons, amount: 35, max_stacks: Some(7) }],
                ),
            ],
        ),
    );
    v.push(
        entry(
            def("吐纳", "吐纳术魂玉", Kind::Soul, 1, 1, 0, 0),
            vec![
                on(
                    Trigger::OnHeal,
                    vec![Effect::AttackBonus { target: Target::OwnAdjacentWeapons, amount: 15, max_stacks: Some(20) }],
                ),
            ],
        ),
    );
    v.push(
        entry(
            def("玄武", "玄武之力", Kind::Potion, 1, 1, 0, 0),
            vec![
                on(
                    Trigger::OnNormalHit,
                    vec![
                        Effect::Uses(1),
                        Effect::MaxHp(200),
                        Effect::Heal(200),
                        Effect::AttackBonus { target: Target::OwnAllWeapons, amount: 40, max_stacks: None },
                        Effect::Accelerate { target: Target::OwnAllWeapons, seconds: 3000 },
                    ],
                ),
            ],
        ),
    );
    v.push(
        entry(
            def("寒冰核", "寒冰核护符", Kind::Charm, 2, 2, 0, 6000),
            vec![
                on(Trigger::ActiveUse, vec![Effect::Freeze { target: enemy_random(1), seconds: 3500 }]),
                on(Trigger::OnNormalHit, vec![Effect::Slow { target: enemy_random(1), seconds: 1000 }]),
            ],
        ),
    );
    v.push(
        entry(
            def("蜃景苞", "蜃景苞护符", Kind::Charm, 2, 2, 0, 7500),
            vec![
                on(Trigger::ActiveUse, vec![Effect::Freeze { target: enemy_random(1), seconds: 1100 }]),
                on(
                    Trigger::OnFreeze,
                    vec![Effect::Charge { target: Target::OwnRandomActiveItems(1), seconds: 1500 }],
                ),
            ],
        ),
    );
    v.push(
        entry(
            def("铸盾", "铸盾魂玉", Kind::Soul, 1, 1, 0, 0),
            vec![on(Trigger::OnHeal, vec![Effect::Armor(45)])],
        ),
    );
    v.push(
        entry(
            def("通达", "通达魂玉", Kind::Soul, 1, 1, 0, 0),
            vec![
                on(
                    Trigger::BattleStart,
                    vec![Effect::Accelerate { target: Target::OwnAllActiveItems, seconds: 2000 }],
                ),
                on(
                    Trigger::Passive,
                    vec![Effect::AttackBonus { target: Target::OwnAdjacentWeapons, amount: 18, max_stacks: Some(20) }],
                ),
            ],
        ),
    );
    v.push(
        entry(
            def("神将甲", "神将甲护甲", Kind::Armor, 2, 3, 0, 0),
            vec![
                on(Trigger::BattleStart, vec![Effect::Armor(300), Effect::DamageReductionPct(5000)]),
                on(Trigger::OnDisabled, vec![Effect::Armor(15), Effect::Heal(15)]),
            ],
        ),
    );
    v.push(
        entry(
            def("龙弧", "龙弧近战武器", Kind::Weapon, 2, 2, 75000, 6000),
            vec![
                on(
                    Trigger::ChargedAttack,
                    vec![
                        Effect::ConsumeSword(28),
                        Effect::Damage(DamageAmount::WeaponAttackMultiplier(3700)),
                        Effect::EnemySword(-16),
                        Effect::Freeze { target: enemy_random(1), seconds: 2000 },
                    ],
                ),
                on(Trigger::NormalAttack, vec![Effect::Damage(DamageAmount::WeaponAttack), Effect::Sword(16)]),
            ],
        ),
    );
    v.push(
        entry(
            def("白虎之力", "白虎之力", Kind::Potion, 1, 1, 0, 0),
            vec![
                on(
                    Trigger::OnHit,
                    vec![
                        Effect::Uses(1),
                        Effect::Freeze { target: Target::EnemyAllActiveItems, seconds: 3000 },
                        Effect::AttackBonus { target: Target::OwnAllWeapons, amount: 100, max_stacks: None },
                    ],
                ),
            ],
        ),
    );
    v.push(
        entry(
            def("振魄", "振魄魂玉", Kind::Soul, 1, 1, 0, 0),
            vec![
                on(Trigger::BattleStart, vec![Effect::Sword(20)]),
                on(
                    Trigger::OnChargedHit,
                    vec![Effect::Sword(20), Effect::Freeze { target: enemy_random(1), seconds: 1000 }],
                ),
            ],
        ),
    );
    v.push(
        entry(
            def("混沌", "混沌魂玉", Kind::Soul, 1, 1, 0, 0),
            vec![
                on(Trigger::BattleStart, vec![Effect::Sword(20)]),
                on(Trigger::NormalAttack, vec![Effect::Sword(8)]),
                on(Trigger::OnParry, vec![Effect::Accelerate { target: Target::OwnAllWeapons, seconds: 4000 }]),
            ],
        ),
    );
    v.push(
        entry(
            def("烛神令", "烛神令", Kind::Weapon, 1, 3, 125000, 6500),
            vec![
                on(Trigger::BattleStart, vec![Effect::Sword(20)]),
                on(
                    Trigger::ChargedAttack,
                    vec![
                        Effect::ConsumeSword(24),
                        Effect::Damage(DamageAmount::WeaponAttackMultiplier(2250)),
                        Effect::Heal(4),
                    ],
                ),
                on(
                    Trigger::NormalAttack,
                    vec![Effect::Damage(DamageAmount::WeaponAttack), Effect::Sword(14), Effect::Heal(4)],
                ),
                on(Trigger::OnHeal, vec![Effect::Charge { target: Target::ThisWeapon, seconds: 1000 }]),
            ],
        ),
    );
    v.push(
        entry(
            def("凌波", "凌波魂玉", Kind::Soul, 1, 1, 0, 0),
            vec![on(Trigger::OnHeal, vec![Effect::Slow { target: enemy_random(1), seconds: 4000 }])],
        ),
    );
    assert(spec_defs_of(v@) =~= catalog_defs());
    assert(spec_properties_of(v@) =~~= catalog_properties());
    v
}

// ---------------------------------------------------------------------------
// Star profiles
// ---------------------------------------------------------------------------

pub open spec fn sp(
    star: u8,
    attack: u64,
    interval: u64,
    normal_sword: i32,
    freeze_attack_bonus: Option<i32>,
    charged_enemy_sword: Option<i32>,
) -> StarProfile {
    StarProfile { star, attack, interval, normal_sword, freeze_attack_bonus, charged_enemy_sword }
}

/// The star profiles of a weapon (none for other equipment).
pub open spec fn star_table(short: Seq<char>) -> Seq<StarProfile> {
    if short == "冰魄"@ {
        seq![
            sp(1, 60000, 7000, 16, Some(20), None),
            sp(2, 110000, 6500, 16, Some(35), None),
            sp(3, 160000, 6000, 16, Some(50), None),
            sp(4, 210000, 5500, 16, Some(65), None),
        ]
    } else if short == "龙弧"@ {
        seq![
            sp(1, 30000, 7500, 10, None, Some(10)),
            sp(2, 45000, 7000, 12, None, Some(12)),
            sp(3, 60000, 6500, 14, None, Some(14)),
            sp(4, 75000, 6000, 16, None, Some(16)),
        ]
    } else if short == "烛神令"@ {
        seq![
            sp(1, 55000, 7500, 14, None, None),
            sp(2, 90000, 7000, 14, None, None),
            sp(3, 125000, 6500, 14, None, None),
            sp(4, 160000, 6000, 14, None, None),
        ]
    } else {
        seq![]
    }
}

/// The first profile of the table with the given star.
pub open spec fn find_star(t: Seq<StarProfile>, star: u8) -> Option<StarProfile>
    decreases t.len(),
{
    if t.len() == 0 {
        None
    } else if t[0].star == star {
        Some(t[0])
    } else {
        find_star(t.drop_first(), star)
    }
}

fn profiles_of(short: &str) -> (r: Option<Vec<StarProfile>>)
    ensures
        r matches Some(v) ==> v@ == star_table(short@) && v@.len() > 0,
        r is None ==> star_table(short@).len() == 0,
{
    let s = text::chars_of(short);
    if text::eq_str(&s, "冰魄") {
        let v = vec![
            StarProfile { star: 1, attack: 60000, interval: 7000, normal_sword: 16, freeze_attack_bonus: Some(20), charged_enemy_sword: None },
            StarProfile { star: 2, attack: 110000, interval: 6500, normal_sword: 16, freeze_attack_bonus: Some(35), charged_enemy_sword: None },
            StarProfile { star: 3, attack: 160000, interval: 6000, normal_sword: 16, freeze_attack_bonus: Some(50), charged_enemy_sword: None },
            StarProfile { star: 4, attack: 210000, interval: 5500, normal_sword: 16, freeze_attack_bonus: Some(65), charged_enemy_sword: None },
        ];
        assert(v@ =~= star_table(short@));
        Some(v)
    } else if text::eq_str(&s, "龙弧") {
        let v = vec![
            StarProfile { star: 1, attack: 30000, interval: 7500, normal_sword: 10, freeze_attack_bonus: None, charged_enemy_sword: Some(10) },
            StarProfile { star: 2, attack: 45000, interval: 7000, normal_sword: 12, freeze_attack_bonus: None, charged_enemy_sword: Some(12) },
            StarProfile { star: 3, attack: 60000, interval: 6500, normal_sword: 14, freeze_attack_bonus: None, charged_enemy_sword: Some(14) },
            StarProfile { star: 4, attack: 75000, interval: 6000, normal_sword: 16, freeze_attack_bonus: None, charged_enemy_sword: Some(16) },
        ];
        assert(v@ =~= star_table(short@));
        Some(v)
    } else if text::eq_str(&s, "烛神令") {
        let v = vec![
            StarProfile { star: 1, attack: 55000, interval: 7500, normal_sword: 14, freeze_attack_bonus: None, charged_enemy_sword: None },
            StarProfile { star: 2, attack: 90000, interval: 7000, normal_sword: 14, freeze_attack_bonus: None, charged_enemy_sword: None },
            StarProfile { star: 3, attack: 125000, interval: 6500, normal_sword: 14, freeze_attack_bonus: None, charged_enemy_sword: None },
            StarProfile { star: 4, attack: 160000, interval: 6000, normal_sword: 14, freeze_attack_bonus: None, charged_enemy_sword: None },
        ];
        assert(v@ =~= star_table(short@));
        Some(v)
    } else {
        None
    }
}

/// The profile of a weapon at a star tier, when the catalog has one.
pub fn star_profile(short: &str, star: u8) -> (r: Option<StarProfile>)
    ensures
        r == find_star(star_table(short@), star),
{
    let table = match profiles_of(short) {
        Some(t) => t,
        None => return None,
    };
    let mut i: usize = 0;
    assert(table@.subrange(0, table@.len() as int) =~= table@);
    while i < table.len()
        invariant
            table@ == star_table(short@),
            i <= table@.len(),
            find_star(table@, star) == find_star(table@.subrange(i as int, table@.len() as int), star),
        decreases table@.len() - i,
    {
        assert(table@.subrange(i as int, table@.len() as int).drop_first() =~= table@.subrange(
            i + 1,
            table@.len() as int,
        ));
        if table[i].star == star {
            return Some(table[i]);
        }
        i += 1;
    }
    None
}

// ---------------------------------------------------------------------------
// Kinds as stored
// ---------------------------------------------------------------------------

pub open spec fn spec_kind_to_db(k: Kind) -> Seq<char> {
    match k {
        Kind::Weapon => "weapon"@,
        Kind::Charm => "charm"@,
        Kind::Potion => "potion"@,
        Kind::Soul => "soul"@,
        Kind::Armor => "armor"@,
    }
}

pub open spec fn spec_kind_from_db(t: Seq<char>) -> Kind {
    if t == "weapon"@ {
        Kind::Weapon
    } else if t == "charm"@ {
        Kind::Charm
    } else if t == "potion"@ {
        Kind::Potion
    } else if t == "soul"@ {
        Kind::Soul
    } else if t == "armor"@ {
        Kind::Armor
    } else {
        Kind::Soul
    }
}

/// The stored text of a kind.
pub fn kind_to_db(kind: Kind) -> (r: &'static str)
    ensures
        r@ == spec_kind_to_db(kind),
{
    match kind {
        Kind::Weapon => "weapon",
        Kind::Charm => "charm",
        Kind::Potion => "potion",
        Kind::Soul => "soul",
        Kind::Armor => "armor",
    }
}

/// The label a kind is shown with in the documents and the database.
pub open spec fn spec_kind_label(k: Kind) -> Seq<char> {
    match k {
        Kind::Weapon => "近战武器"@,
        Kind::Charm => "护符"@,
        Kind::Potion => "药品"@,
        Kind::Soul => "魂玉"@,
        Kind::Armor => "护甲"@,
    }
}

/// The label a kind is shown with.
pub fn kind_label(kind: Kind) -> (r: &'static str)
    ensures
        r@ == spec_kind_label(kind),
{
    match kind {
        Kind::Weapon => "近战武器",
        Kind::Charm => "护符",
        Kind::Potion => "药品",
        Kind::Soul => "魂玉",
        Kind::Armor => "护甲",
    }
}

/// The kind a stored text names; unknown texts read as souls.
pub fn kind_from_db(kind: &str) -> (r: Kind)
    ensures
        r == spec_kind_from_db(kind@),
{
    let k = text::chars_of(kind);
    if text::eq_str(&k, "weapon") {
        Kind::Weapon
    } else if text::eq_str(&k, "charm") {
        Kind::Charm
    } else if text::eq_str(&k, "potion") {
        Kind::Potion
    } else if text::eq_str(&k, "soul") {
        Kind::Soul
    } else if text::eq_str(&k, "armor") {
        Kind::Armor
    } else {
        Kind::Soul
    }
}

/// A kind stored and read back is the same kind.
pub proof fn lemma_kind_roundtrip(k: Kind)
    ensures
        spec_kind_from_db(spec_kind_to_db(k)) == k,
{
    reveal_strlit("weapon");
    reveal_strlit("charm");
    reveal_strlit("potion");
    reveal_strlit("soul");
    reveal_strlit("armor");
    assert("charm"@[0] != "weapon"@[0]);
    assert("potion"@[0] != "weapon"@[0] && "potion"@[0] != "charm"@[0]);
    assert("soul"@[0] != "weapon"@[0] && "soul"@[0] != "charm"@[0] && "soul"@[0] != "potion"@[0]);
    assert("armor"@[0] != "weapon"@[0] && "armor"@[0] != "charm"@[0] && "armor"@[0] != "potion"@[0]
        && "armor"@[0] != "soul"@[0]);
}

// ---------------------------------------------------------------------------
// Attribute terms
// ---------------------------------------------------------------------------

/// A status term and what it means.
#[derive(Clone, Debug)]
pub struct AttributeTerm {
    pub term: &'static str,
    pub description: &'static str,
}

pub open spec fn terms_view(v: Seq<AttributeTerm>) -> Seq<(Seq<char>, Seq<char>)> {
    v.map_values(|t: AttributeTerm| (t.term@, t.description@))
}

/// The explained status terms, in catalog order.
pub open spec fn spec_attribute_terms() -> Seq<(Seq<char>, Seq<char>)> {
    seq![
        ("暴击"@, "有一定几率造成2倍伤害。"@),
        ("灼伤"@, "每秒受到等同于当前灼伤层数的伤害，每秒层数减少10%。"@),
        ("中毒"@, "每秒受到等同于当前中毒层数的伤害，无视护甲。"@),
    ]
}

/// The status terms the catalog explains.
pub fn attribute_terms() -> (r: Vec<AttributeTerm>)
    ensures
        terms_view(r@) == spec_attribute_terms(),
{
    let v = vec![
        AttributeTerm { term: "暴击", description: "有一定几率造成2倍伤害。" },
        AttributeTerm { term: "灼伤", description: "每秒受到等同于当前灼伤层数的伤害，每秒层数减少10%。" },
        AttributeTerm { term: "中毒", description: "每秒受到等同于当前中毒层数的伤害，无视护甲。" },
    ];
    assert(terms_view(v@) =~= spec_attribute_terms());
    v
}

// ---------------------------------------------------------------------------
// Definitions from stored rows
// ---------------------------------------------------------------------------

/// `Box::leak` of the text's boxed form: a `&'static str` with the same characters. The
/// text is never freed.
#[verifier::external_body]
fn leak_text(value: String) -> (r: &'static str)
    ensures
        r@ == value@,
{
    Box::leak(value.into_boxed_str())
}

/// The definition a stored equipment row describes; the kind is read from its stored text.
pub fn def_from_row(
    short: String,
    full: String,
    kind: &str,
    w: usize,
    h: usize,
    attack: u64,
    interval: u64,
) -> (r: Def)
    ensures
        r@ == (DefView {
            short: short@,
            full: full@,
            kind: spec_kind_from_db(kind@),
            w,
            h,
            attack,
            interval,
        }),
{
    Def {
        short: leak_text(short),
        full: leak_text(full),
        kind: kind_from_db(kind),
        w,
        h,
        attack,
        interval,
    }
}

} // verus!
