use crate::kinds::BossType;
use crate::snake::Point;
use vstd::prelude::*;

verus! {

/// The lore of a boss as the bestiary shows it after `kills` defeats.
pub open spec fn spec_boss_lore(boss_type: BossType, kills: u32) -> Seq<char> {
    if kills == 0 {
        "??? (Defeat this boss to unlock lore)"@
    } else {
        match boss_type {
            BossType::Shooter => if kills >= 5 { "A ruthless sniper. Rumored to have perfect aim."@ } else { "Fires deadly lasers from afar."@ },
            BossType::Charger => if kills >= 5 { "Moves incredibly fast. Cannot change direction quickly."@ } else { "Charges at high speed."@ },
            BossType::Spawner => if kills >= 5 { "Lays explosive mines. Always keeps its distance."@ } else { "Spawns mines."@ },
            BossType::Teleporter => if kills >= 5 { "Can blink across the arena instantly."@ } else { "Teleports frequently."@ },
            BossType::Splitter => if kills >= 5 { "Splits into smaller parts upon death."@ } else { "Splits into pieces."@ },
            BossType::Trapper => if kills >= 5 { "Leaves deadly obstacles in its wake to trap prey."@ } else { "Leaves traps behind."@ },
            BossType::Necromancer => if kills >= 5 { "Summons minions to do its bidding."@ } else { "Summons the dead."@ },
            BossType::ShadowClone => if kills >= 5 { "Mirrors the player's movement exactly."@ } else { "Copies your every move."@ },
            BossType::Mimic => if kills >= 5 { "Disguises itself as food. Don't be fooled!"@ } else { "Looks like a tasty snack."@ },
            BossType::Puffer => if kills >= 5 { "Expands in size, creating a massive impassable area."@ } else { "Inflates to block paths."@ },
            BossType::Juggernaut => if kills >= 5 { "Heavily armored. Can destroy obstacles effortlessly."@ } else { "A massive, unstoppable force."@ },
            _ => "??? (Defeat this boss to unlock lore)"@,
        }
    }
}

/// The bestiary entry of a boss: locked until it has been defeated once, a
/// short hint until five defeats, then the full lore. The kinds of boss that
/// have no entry stay locked.
pub fn get_boss_lore(boss_type: &BossType, kills: u32) -> (r: &'static str)
    ensures
        r@ == spec_boss_lore(*boss_type, kills),
{
    if kills == 0 {
        return "??? (Defeat this boss to unlock lore)";
    }
    match boss_type {
            BossType::Shooter => if kills >= 5 { "A ruthless sniper. Rumored to have perfect aim." } else { "Fires deadly lasers from afar." },
            BossType::Charger => if kills >= 5 { "Moves incredibly fast. Cannot change direction quickly." } else { "Charges at high speed." },
            BossType::Spawner => if kills >= 5 { "Lays explosive mines. Always keeps its distance." } else { "Spawns mines." },
            BossType::Teleporter => if kills >= 5 { "Can blink across the arena instantly." } else { "Teleports frequently." },
            BossType::Splitter => if kills >= 5 { "Splits into smaller parts upon death." } else { "Splits into pieces." },
            BossType::Trapper => if kills >= 5 { "Leaves deadly obstacles in its wake to trap prey." } else { "Leaves traps behind." },
            BossType::Necromancer => if kills >= 5 { "Summons minions to do its bidding." } else { "Summons the dead." },
            BossType::ShadowClone => if kills >= 5 { "Mirrors the player's movement exactly." } else { "Copies your every move." },
            BossType::Mimic => if kills >= 5 { "Disguises itself as food. Don't be fooled!" } else { "Looks like a tasty snack." },
            BossType::Puffer => if kills >= 5 { "Expands in size, creating a massive impassable area." } else { "Inflates to block paths." },
            BossType::Juggernaut => if kills >= 5 { "Heavily armored. Can destroy obstacles effortlessly." } else { "A massive, unstoppable force." },
            _ => "??? (Defeat this boss to unlock lore)",
    }
}

/// The task of a bounty with its target amount.
#[derive(Clone, Copy, Debug, PartialEq, Eq, Structural)]
pub enum BountyType {
    EatFood(u32),
    KillBosses(u32),
    SurviveTime(u64),
}

/// A bounty: a task, how far it has got and the coins it pays.
#[derive(Clone, Copy, Debug, PartialEq, Eq, Structural)]
pub struct Bounty {
    pub b_type: BountyType,
    pub target: u32,
    pub progress: u32,
    pub reward_coins: u32,
}

/// The target of a bounty task; a survival time beyond `u32::MAX` is capped.
pub open spec fn spec_bounty_target(b_type: BountyType) -> u32 {
    match b_type {
        BountyType::EatFood(t) => t,
        BountyType::KillBosses(t) => t,
        BountyType::SurviveTime(t) => if t <= u32::MAX { t as u32 } else { u32::MAX },
    }
}

/// Whether two bounty tasks are of the same kind, whatever their amounts.
pub open spec fn spec_same_bounty_kind(a: BountyType, b: BountyType) -> bool {
    match (a, b) {
        (BountyType::EatFood(_), BountyType::EatFood(_)) => true,
        (BountyType::KillBosses(_), BountyType::KillBosses(_)) => true,
        (BountyType::SurviveTime(_), BountyType::SurviveTime(_)) => true,
        _ => false,
    }
}

impl BountyType {
    /// Whether two bounty tasks are of the same kind, whatever their amounts.
    pub fn same_kind(self, other: BountyType) -> (r: bool)
        ensures
            r == spec_same_bounty_kind(self, other),
    {
        match (self, other) {
            (BountyType::EatFood(_), BountyType::EatFood(_)) => true,
            (BountyType::KillBosses(_), BountyType::KillBosses(_)) => true,
            (BountyType::SurviveTime(_), BountyType::SurviveTime(_)) => true,
            _ => false,
        }
    }
}

impl Bounty {
    /// A fresh bounty with no progress.
    pub fn new(b_type: BountyType, reward_coins: u32) -> (b: Bounty)
        ensures
            b.b_type == b_type,
            b.target == spec_bounty_target(b_type),
            b.progress == 0,
            b.reward_coins == reward_coins,
    {
        let target = match b_type {
            BountyType::EatFood(t) => t,
            BountyType::KillBosses(t) => t,
            BountyType::SurviveTime(t) => if t <= u32::MAX as u64 { t as u32 } else { u32::MAX },
        };
        Bounty { b_type, target, progress: 0, reward_coins }
    }

    /// Whether the progress has reached the target.
    pub fn is_completed(&self) -> (r: bool)
        ensures
            r == (self.progress >= self.target),
    {
        self.progress >= self.target
    }
}

/// A fresh bounty is complete exactly when its target is zero.
pub proof fn lemma_new_bounty_completion(b_type: BountyType)
    ensures
        (0u32 >= spec_bounty_target(b_type)) == (spec_bounty_target(b_type) == 0),
{
}

/// The guilds a player may join.
#[derive(Clone, Copy, Debug, PartialEq, Eq, Structural, Hash)]
pub enum Faction {
    CrimsonVipers,
    AzureCobras,
    EmeraldPythons,
}

/// The bonus a faction gives, as the menu describes it.
pub open spec fn spec_faction_description(f: Faction) -> Seq<char> {
    match f {
            Faction::CrimsonVipers => "+1 Laser Damage (+1 per 5000 Rep)"@,
            Faction::AzureCobras => "-10ms Base Tick Rate (-1ms per 1000 Rep)"@,
            Faction::EmeraldPythons => "+10% Coins (+1% per 1000 Rep)"@,
    }
}

/// The display name of a faction.
pub open spec fn spec_faction_name(f: Faction) -> Seq<char> {
    match f {
            Faction::CrimsonVipers => "Crimson Vipers"@,
            Faction::AzureCobras => "Azure Cobras"@,
            Faction::EmeraldPythons => "Emerald Pythons"@,
    }
}

impl Faction {
    /// The bonus this faction gives, as the menu describes it.
    pub fn description(self) -> (r: &'static str)
        ensures
            r@ == spec_faction_description(self),
    {
        match self {
            Faction::CrimsonVipers => "+1 Laser Damage (+1 per 5000 Rep)",
            Faction::AzureCobras => "-10ms Base Tick Rate (-1ms per 1000 Rep)",
            Faction::EmeraldPythons => "+10% Coins (+1% per 1000 Rep)",
        }
    }

    /// The display name of this faction.
    pub fn name(self) -> (r: &'static str)
        ensures
            r@ == spec_faction_name(self),
    {
        match self {
            Faction::CrimsonVipers => "Crimson Vipers",
            Faction::AzureCobras => "Azure Cobras",
            Faction::EmeraldPythons => "Emerald Pythons",
        }
    }
}

/// The upgrades offered on levelling up during a game.
#[derive(Clone, Copy, Debug, PartialEq, Eq, Structural, Hash)]
pub enum InGameUpgrade {
    Multishot,
    Piercing,
    ExplosiveLasers,
    LaserSpeed,
    HomingLasers,
    DoubleCoins,
    Magnet,
    Turret,
}

/// The display name of an upgrade.
pub open spec fn spec_upgrade_name(u: InGameUpgrade) -> Seq<char> {
    match u {
            InGameUpgrade::Multishot => "Multishot"@,
            InGameUpgrade::Piercing => "Piercing"@,
            InGameUpgrade::ExplosiveLasers => "Explosive Lasers"@,
            InGameUpgrade::LaserSpeed => "Laser Speed"@,
            InGameUpgrade::HomingLasers => "Homing Lasers"@,
            InGameUpgrade::DoubleCoins => "Double Coins"@,
            InGameUpgrade::Magnet => "Magnet"@,
            InGameUpgrade::Turret => "Deploy Turret"@,
    }
}

/// What an upgrade does, as the level-up screen describes it.
pub open spec fn spec_upgrade_description(u: InGameUpgrade) -> Seq<char> {
    match u {
            InGameUpgrade::Multishot => "Shoot extra parallel lasers"@,
            InGameUpgrade::Piercing => "Lasers pass through obstacles and enemies"@,
            InGameUpgrade::ExplosiveLasers => "Lasers explode on impact"@,
            InGameUpgrade::LaserSpeed => "Increase laser travel speed"@,
            InGameUpgrade::HomingLasers => "Lasers steer towards bosses"@,
            InGameUpgrade::DoubleCoins => "Increase coin drops from food"@,
            InGameUpgrade::Magnet => "Attract food and powerups from afar"@,
            InGameUpgrade::Turret => "Automatically deploys a turret that shoots enemies"@,
    }
}

impl InGameUpgrade {
    /// The display name of this upgrade.
    pub fn name(self) -> (r: &'static str)
        ensures
            r@ == spec_upgrade_name(self),
    {
        match self {
            InGameUpgrade::Multishot => "Multishot",
            InGameUpgrade::Piercing => "Piercing",
            InGameUpgrade::ExplosiveLasers => "Explosive Lasers",
            InGameUpgrade::LaserSpeed => "Laser Speed",
            InGameUpgrade::HomingLasers => "Homing Lasers",
            InGameUpgrade::DoubleCoins => "Double Coins",
            InGameUpgrade::Magnet => "Magnet",
            InGameUpgrade::Turret => "Deploy Turret",
        }
    }

    /// What this upgrade does, as the level-up screen describes it.
    pub fn description(self) -> (r: &'static str)
        ensures
            r@ == spec_upgrade_description(self),
    {
        match self {
            InGameUpgrade::Multishot => "Shoot extra parallel lasers",
            InGameUpgrade::Piercing => "Lasers pass through obstacles and enemies",
            InGameUpgrade::ExplosiveLasers => "Lasers explode on impact",
            InGameUpgrade::LaserSpeed => "Increase laser travel speed",
            InGameUpgrade::HomingLasers => "Lasers steer towards bosses",
            InGameUpgrade::DoubleCoins => "Increase coin drops from food",
            InGameUpgrade::Magnet => "Attract food and powerups from afar",
            InGameUpgrade::Turret => "Automatically deploys a turret that shoots enemies",
        }
    }
}

/// The properties a player can buy for passive income.
#[derive(Clone, Copy, Debug, PartialEq, Eq, Structural, Hash)]
pub enum Property {
    Shack,
    Apartment,
    Mansion,
    Skyscraper,
}

/// The price of a property in coins.
pub open spec fn spec_property_cost(p: Property) -> u32 {
    match p {
        Property::Shack => 100,
        Property::Apartment => 500,
        Property::Mansion => 2000,
        Property::Skyscraper => 10000,
    }
}

/// The coins a property earns per second.
pub open spec fn spec_property_income(p: Property) -> u32 {
    match p {
        Property::Shack => 1,
        Property::Apartment => 6,
        Property::Mansion => 28,
        Property::Skyscraper => 160,
    }
}

impl Property {
    /// The price of this property in coins.
    pub fn cost(self) -> (r: u32)
        ensures
            r == spec_property_cost(self),
    {
        match self {
            Property::Shack => 100,
            Property::Apartment => 500,
            Property::Mansion => 2000,
            Property::Skyscraper => 10000,
        }
    }

    /// The coins this property earns per second.
    pub fn income_per_second(self) -> (r: u32)
        ensures
            r == spec_property_income(self),
    {
        match self {
            Property::Shack => 1,
            Property::Apartment => 6,
            Property::Mansion => 28,
            Property::Skyscraper => 160,
        }
    }
}

/// Every property pays for itself within 100 seconds of income, and a
/// dearer property earns more per coin spent.
pub proof fn lemma_property_returns(p: Property)
    ensures
        spec_property_income(p) * 100 >= spec_property_cost(p),
        spec_property_income(p) * 100 < 2 * spec_property_cost(p),
{
}

/// The kind of a room of a dungeon.
#[derive(Clone, Copy, Debug, PartialEq, Eq, Structural)]
pub enum DungeonRoomType {
    Start,
    Normal,
    Boss,
    Treasure,
}

/// A room of a dungeon with the doors it has to its four neighbours.
#[derive(Clone, Copy, Debug, PartialEq, Eq, Structural)]
pub struct DungeonRoom {
    pub r_type: DungeonRoomType,
    pub cleared: bool,
    pub north_door: bool,
    pub south_door: bool,
    pub east_door: bool,
    pub west_door: bool,
}

impl DungeonRoom {
    /// A room of the given kind, not cleared and with no doors yet.
    pub fn new(r_type: DungeonRoomType) -> (r: DungeonRoom)
        ensures
            r == (DungeonRoom {
                r_type,
                cleared: false,
                north_door: false,
                south_door: false,
                east_door: false,
                west_door: false,
            }),
    {
        DungeonRoom {
            r_type,
            cleared: false,
            north_door: false,
            south_door: false,
            east_door: false,
            west_door: false,
        }
    }
}

/// The classes a hero can play.
#[derive(Clone, Copy, Debug, PartialEq, Eq, Structural, Hash)]
pub enum HeroClass {
    Warrior,
    Mage,
    Rogue,
    Paladin,
}

/// The planets a game can be played on.
#[derive(Clone, Copy, Debug, PartialEq, Eq, Structural, Hash)]
pub enum Planet {
    Earth,
    Moon,
    Mars,
    Jupiter,
}

/// Relics with passive effects.
#[derive(Clone, Copy, Debug, PartialEq, Eq, Structural)]
pub enum Artifact {
    CoinAmulet,
    LifeChalice,
    GhostCloak,
    MagnetStone,
    TimeCrystal,
}

/// The roles of a companion.
#[derive(Clone, Copy, Debug, PartialEq, Eq, Structural, Hash)]
pub enum CompanionType {
    Collector,
    Fighter,
    Healer,
    Sniper,
}

/// A companion following the snake along its planned path.
#[derive(Clone, Debug)]
pub struct Companion {
    pub position: Point,
    pub kind: CompanionType,
    pub move_timer: u32,
    pub action_timer: u32,
    pub path: Vec<Point>,
}

/// A crop growing on the board (stage 0 seed, 1 sprout, 2 mature).
#[derive(Clone, Copy, Debug, PartialEq, Eq, Structural)]
pub struct Crop {
    pub position: Point,
    pub growth_stage: u8,
    pub timer: u32,
}

/// A goblin that roams the board eating food.
#[derive(Clone, Copy, Debug, PartialEq, Eq, Structural)]
pub struct Goblin {
    pub position: Point,
    pub move_timer: u8,
    pub food_eaten: u8,
}

/// A meteor about to strike the cell it marks.
#[derive(Clone, Copy, Debug, PartialEq, Eq, Structural)]
pub struct Meteor {
    pub position: Point,
    pub timer: u8,
}

/// The kinds of pet.
#[derive(Clone, Copy, Debug, PartialEq, Eq, Structural, Hash)]
pub enum PetType {
    Dragon,
    Fairy,
    Mimic,
    Turtle,
}

/// A pet and where it is.
#[derive(Clone, Copy, Debug, PartialEq, Eq, Structural)]
pub struct Pet {
    pub p_type: PetType,
    pub location: Point,
}

/// The kinds of quest.
#[derive(Clone, Copy, Debug, PartialEq, Eq, Structural)]
pub enum QuestType {
    SlayBosses,
    CollectCoins,
    ReachScore,
}

/// Whether a quest is still running.
#[derive(Clone, Copy, Debug, PartialEq, Eq, Structural)]
pub enum QuestStatus {
    Active,
    Completed,
}

/// A quest with its progress towards the target and its reward in coins.
#[derive(Clone, Debug)]
pub struct Quest {
    pub name: String,
    pub description: String,
    pub q_type: QuestType,
    pub target: u32,
    pub progress: u32,
    pub reward: u32,
    pub status: QuestStatus,
}

} // verus!
