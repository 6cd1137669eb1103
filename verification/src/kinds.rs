use crate::snake::{Direction, Point};
use vstd::prelude::*;

verus! {

/// How hard a game is; it sets the number of starting obstacles and the
/// score that a piece of food is worth.
#[derive(Clone, Copy, Debug, PartialEq, Eq, Structural)]
pub enum Difficulty {
    Easy,
    Normal,
    Hard,
    Insane,
    GodMode,
}

/// The difficulty after `d` in the settings cycle.
pub open spec fn spec_next(d: Difficulty) -> Difficulty {
    match d {
        Difficulty::Easy => Difficulty::Normal,
        Difficulty::Normal => Difficulty::Hard,
        Difficulty::Hard => Difficulty::Insane,
        Difficulty::Insane => Difficulty::GodMode,
        Difficulty::GodMode => Difficulty::Easy,
    }
}

/// The difficulty before `d` in the settings cycle.
pub open spec fn spec_prev(d: Difficulty) -> Difficulty {
    match d {
        Difficulty::Easy => Difficulty::GodMode,
        Difficulty::Normal => Difficulty::Easy,
        Difficulty::Hard => Difficulty::Normal,
        Difficulty::Insane => Difficulty::Hard,
        Difficulty::GodMode => Difficulty::Insane,
    }
}

/// Obstacles placed at the start of a game at difficulty `d`.
pub open spec fn spec_obstacle_count(d: Difficulty) -> u32 {
    match d {
        Difficulty::Easy => 1,
        Difficulty::Normal => 3,
        Difficulty::Hard => 5,
        Difficulty::Insane => 10,
        Difficulty::GodMode => 20,
    }
}

/// The factor by which difficulty `d` scales the score of food.
pub open spec fn spec_score_factor(d: Difficulty) -> u32 {
    match d {
        Difficulty::Easy => 1,
        Difficulty::Normal => 2,
        Difficulty::Hard => 3,
        Difficulty::Insane => 5,
        Difficulty::GodMode => 10,
    }
}

impl Difficulty {
    /// The next difficulty in the settings cycle (`GodMode` wraps to `Easy`).
    pub fn next(self) -> (r: Difficulty)
        ensures
            r == spec_next(self),
    {
        match self {
            Difficulty::Easy => Difficulty::Normal,
            Difficulty::Normal => Difficulty::Hard,
            Difficulty::Hard => Difficulty::Insane,
            Difficulty::Insane => Difficulty::GodMode,
            Difficulty::GodMode => Difficulty::Easy,
        }
    }

    /// The previous difficulty in the settings cycle (`Easy` wraps to `GodMode`).
    pub fn prev(self) -> (r: Difficulty)
        ensures
            r == spec_prev(self),
    {
        match self {
            Difficulty::Easy => Difficulty::GodMode,
            Difficulty::Normal => Difficulty::Easy,
            Difficulty::Hard => Difficulty::Normal,
            Difficulty::Insane => Difficulty::Hard,
            Difficulty::GodMode => Difficulty::Insane,
        }
    }

    /// Obstacles placed at the start of a game.
    pub fn obstacle_count(self) -> (r: u32)
        ensures
            r == spec_obstacle_count(self),
    {
        match self {
            Difficulty::Easy => 1,
            Difficulty::Normal => 3,
            Difficulty::Hard => 5,
            Difficulty::Insane => 10,
            Difficulty::GodMode => 20,
        }
    }

    /// The factor by which this difficulty scales the score of food.
    pub fn score_factor(self) -> (r: u32)
        ensures
            r == spec_score_factor(self),
    {
        match self {
            Difficulty::Easy => 1,
            Difficulty::Normal => 2,
            Difficulty::Hard => 3,
            Difficulty::Insane => 5,
            Difficulty::GodMode => 10,
        }
    }
}

impl Default for Difficulty {
    fn default() -> (r: Difficulty)
        ensures
            r == Difficulty::Normal,
    {
        Difficulty::Normal
    }
}

/// `prev` undoes `next` and `next` undoes `prev`.
pub proof fn lemma_next_prev_inverse(d: Difficulty)
    ensures
        spec_prev(spec_next(d)) == d,
        spec_next(spec_prev(d)) == d,
{
}

/// Five steps of `next` come back to the starting difficulty, and no fewer do.
pub proof fn lemma_next_cycle(d: Difficulty)
    ensures
        spec_next(spec_next(spec_next(spec_next(spec_next(d))))) == d,
        spec_next(d) != d,
        spec_next(spec_next(d)) != d,
        spec_next(spec_next(spec_next(d))) != d,
        spec_next(spec_next(spec_next(spec_next(d)))) != d,
{
}

/// A harder difficulty places at least as many obstacles and scores food higher.
pub proof fn lemma_difficulty_monotone(d: Difficulty)
    requires
        d != Difficulty::GodMode,
    ensures
        spec_obstacle_count(d) < spec_obstacle_count(spec_next(d)),
        spec_score_factor(d) < spec_score_factor(spec_next(d)),
{
}

/// The colour scheme of the board.
#[derive(Clone, Copy, Debug, PartialEq, Eq, Structural)]
pub enum Theme {
    Classic,
    Dark,
    Retro,
    Neon,
    Ocean,
    Matrix,
    Galactic,
    Premium,
    Cyberpunk,
    Rainbow,
    Hacker,
    Blockchain,
    Esports,
    Solar,
    Metaverse,
}

impl Default for Theme {
    fn default() -> (r: Theme)
        ensures
            r == Theme::Classic,
    {
        Theme::Classic
    }
}

/// The effect of a power-up.
#[derive(Clone, Copy, Debug, PartialEq, Eq, Structural)]
pub enum PowerUpType {
    SlowDown,
    SpeedBoost,
    Invincibility,
    ExtraLife,
    PassThroughWalls,
    Shrink,
    ClearObstacles,
    ScoreMultiplier,
    Teleport,
    Magnet,
    TimeFreeze,
    Reverse,
    Decoy,
    Emp,
    Nuke,
}

/// A power-up on the board or, once `activation_time` (Unix seconds) is set, in effect.
#[derive(Clone, Copy, Debug, PartialEq, Eq, Structural)]
pub struct PowerUp {
    pub p_type: PowerUpType,
    pub location: Point,
    pub activation_time: Option<u64>,
}

/// The kind of game being played.
#[derive(Clone, Copy, Debug, PartialEq, Eq, Structural)]
pub enum GameMode {
    SinglePlayer,
    Campaign,
    LocalMultiplayer,
    OnlineMultiplayer,
    Tournament,
    PlayerVsBot,
    BotVsBot,
    BattleRoyale,
    TimeAttack,
    Survival,
    Zen,
    Maze,
    Cave,
    Dungeon,
    CustomLevel,
    Speedrun,
    DailyChallenge,
    FogOfWar,
    Evolution,
    BossRush,
    MassiveMultiplayer,
}

impl Default for GameMode {
    fn default() -> (r: GameMode)
        ensures
            r == GameMode::SinglePlayer,
    {
        GameMode::SinglePlayer
    }
}

/// The modes played by two snakes.
pub open spec fn spec_is_two_player(m: GameMode) -> bool {
    m == GameMode::LocalMultiplayer || m == GameMode::OnlineMultiplayer || m == GameMode::Tournament
        || m == GameMode::PlayerVsBot || m == GameMode::BotVsBot || m == GameMode::BattleRoyale
}

impl GameMode {
    /// Whether two snakes play in this mode.
    pub fn is_two_player(self) -> (r: bool)
        ensures
            r == spec_is_two_player(self),
    {
        match self {
            GameMode::LocalMultiplayer | GameMode::OnlineMultiplayer | GameMode::Tournament
            | GameMode::PlayerVsBot | GameMode::BotVsBot | GameMode::BattleRoyale => true,
            _ => false,
        }
    }
}

/// The weather over the board.
#[derive(Clone, Copy, Debug, PartialEq, Eq, Structural)]
pub enum Weather {
    Clear,
    Rain,
    Snow,
    Storm,
}

impl Default for Weather {
    fn default() -> (r: Weather)
        ensures
            r == Weather::Clear,
    {
        Weather::Clear
    }
}

/// The screen or phase the game is in.
#[derive(Clone, Copy, Debug, PartialEq, Eq, Structural)]
pub enum GameState {
    Menu,
    Playing,
    Paused,
    GameOver,
    GameWon,
    Help,
    Settings,
    NftShop,
    SkillTree,
    Stats,
    Achievements,
    EnterName,
    ConfirmQuit,
    LevelEditor,
}

/// A milestone that a player unlocks once.
#[derive(Clone, Copy, Debug, PartialEq, Eq, Structural)]
pub enum Achievement {
    FirstBlood,
    HighScorer,
    Rich,
    BotUser,
    BossSlayer,
    MassiveMultiplayerEnthusiast,
    PoisonEater,
}

/// An item of the shop.
#[derive(Clone, Copy, Debug, PartialEq, Eq, Structural)]
pub enum ShopItem {
    Skin(char),
    Theme(Theme),
}

/// Lives at the start of a game before upgrades.
pub fn default_lives() -> (r: u32)
    ensures
        r == 3,
{
    3
}

/// Whether the board wraps around by default.
pub fn default_wrap_mode() -> (r: bool)
    ensures
        r == false,
{
    false
}

/// The default character drawn for the snake.
pub fn default_skin() -> (r: char)
    ensures
        r == '\u{2588}',
{
    '\u{2588}'
}

/// The campaign level a new campaign starts at.
pub fn default_campaign_level() -> (r: u32)
    ensures
        r == 1,
{
    1
}

/// The rating a player and the bot start with.
pub fn default_elo() -> (r: u32)
    ensures
        r == 1000,
{
    1000
}

/// The themes that every player owns from the start.
pub open spec fn spec_default_themes() -> Seq<Theme> {
    seq![
        Theme::Classic,
        Theme::Dark,
        Theme::Retro,
        Theme::Neon,
        Theme::Ocean,
        Theme::Matrix,
        Theme::Galactic,
    ]
}

/// The themes that every player owns from the start.
pub fn default_unlocked_themes() -> (r: Vec<Theme>)
    ensures
        r@ == spec_default_themes(),
{
    let mut v = Vec::new();
    v.push(Theme::Classic);
    v.push(Theme::Dark);
    v.push(Theme::Retro);
    v.push(Theme::Neon);
    v.push(Theme::Ocean);
    v.push(Theme::Matrix);
    v.push(Theme::Galactic);
    v
}

/// The skins that every player owns from the start.
pub open spec fn spec_default_skins() -> Seq<char> {
    seq!['\u{2588}', 'O', '@', '#', '*']
}

/// The skins that every player owns from the start.
pub fn default_unlocked_skins() -> (r: Vec<char>)
    ensures
        r@ == spec_default_skins(),
{
    let mut v = Vec::new();
    v.push('\u{2588}');
    v.push('O');
    v.push('@');
    v.push('#');
    v.push('*');
    v
}

/// The shop's catalogue with the price of each item in coins.
pub open spec fn spec_available_items() -> Seq<(ShopItem, u32)> {
    seq![
        (ShopItem::Skin('\u{1F48E}'), 100u32),
        (ShopItem::Skin('\u{1F47E}'), 250u32),
        (ShopItem::Skin('\u{1F40D}'), 500u32),
        (ShopItem::Skin('\u{1F680}'), 1000u32),
        (ShopItem::Skin('\u{1F98D}'), 2000u32),
        (ShopItem::Skin('\u{20BF}'), 5000u32),
        (ShopItem::Skin('\u{39E}'), 10_000u32),
        (ShopItem::Skin('\u{D0}'), 25_000u32),
        (ShopItem::Theme(Theme::Premium), 5000u32),
        (ShopItem::Theme(Theme::Cyberpunk), 10_000u32),
        (ShopItem::Theme(Theme::Rainbow), 25_000u32),
        (ShopItem::Theme(Theme::Hacker), 50_000u32),
        (ShopItem::Theme(Theme::Blockchain), 100_000u32),
        (ShopItem::Theme(Theme::Esports), 250_000u32),
        (ShopItem::Theme(Theme::Solar), 500_000u32),
        (ShopItem::Theme(Theme::Metaverse), 1_000_000u32),
    ]
}

/// The shop's catalogue with the price of each item in coins.
pub fn available_items() -> (r: Vec<(ShopItem, u32)>)
    ensures
        r@ == spec_available_items(),
{
    let mut v = Vec::new();
    v.push((ShopItem::Skin('\u{1F48E}'), 100u32));
    v.push((ShopItem::Skin('\u{1F47E}'), 250u32));
    v.push((ShopItem::Skin('\u{1F40D}'), 500u32));
    v.push((ShopItem::Skin('\u{1F680}'), 1000u32));
    v.push((ShopItem::Skin('\u{1F98D}'), 2000u32));
    v.push((ShopItem::Skin('\u{20BF}'), 5000u32));
    v.push((ShopItem::Skin('\u{39E}'), 10_000u32));
    v.push((ShopItem::Skin('\u{D0}'), 25_000u32));
    v.push((ShopItem::Theme(Theme::Premium), 5000u32));
    v.push((ShopItem::Theme(Theme::Cyberpunk), 10_000u32));
    v.push((ShopItem::Theme(Theme::Rainbow), 25_000u32));
    v.push((ShopItem::Theme(Theme::Hacker), 50_000u32));
    v.push((ShopItem::Theme(Theme::Blockchain), 100_000u32));
    v.push((ShopItem::Theme(Theme::Esports), 250_000u32));
    v.push((ShopItem::Theme(Theme::Solar), 500_000u32));
    v.push((ShopItem::Theme(Theme::Metaverse), 1_000_000u32));
    assert(v@ =~= spec_available_items());
    v
}

/// What a player has earned over all games.
#[derive(Clone, Debug)]
pub struct Statistics {
    pub games_played: u32,
    pub total_score: u32,
    pub total_food_eaten: u32,
    pub total_time_s: u64,
    pub coins: u32,
    pub unlocked_skins: Vec<char>,
    pub unlocked_themes: Vec<Theme>,
    pub unlocked_achievements: Vec<Achievement>,
    pub upgrade_powerup_duration: u8,
    pub upgrade_extra_lives: u8,
    pub upgrade_laser_capacity: u8,
    pub upgrade_coin_multiplier: u8,
    pub player_elo: u32,
    pub bot_elo: u32,
}

impl Default for Statistics {
    /// Statistics of a player who has not played yet.
    fn default() -> (s: Statistics)
        ensures
            s.games_played == 0,
            s.total_score == 0,
            s.total_food_eaten == 0,
            s.total_time_s == 0,
            s.coins == 0,
            s.unlocked_skins@.len() == 0,
            s.unlocked_themes@ == spec_default_themes(),
            s.unlocked_achievements@.len() == 0,
            s.upgrade_powerup_duration == 0,
            s.upgrade_extra_lives == 0,
            s.upgrade_laser_capacity == 0,
            s.upgrade_coin_multiplier == 0,
            s.player_elo == 1000,
            s.bot_elo == 1000,
    {
        Statistics {
            games_played: 0,
            total_score: 0,
            total_food_eaten: 0,
            total_time_s: 0,
            coins: 0,
            unlocked_skins: Vec::new(),
            unlocked_themes: default_unlocked_themes(),
            unlocked_achievements: Vec::new(),
            upgrade_powerup_duration: 0,
            upgrade_extra_lives: 0,
            upgrade_laser_capacity: 0,
            upgrade_coin_multiplier: 0,
            player_elo: default_elo(),
            bot_elo: default_elo(),
        }
    }
}

/// Statistics as read back from storage get the starting skins and themes
/// when their lists are empty.
pub fn complete_loaded_statistics(stats: Statistics) -> (r: Statistics)
    ensures
        r.unlocked_skins@ == (if stats.unlocked_skins@.len() == 0 { spec_default_skins() } else { stats.unlocked_skins@ }),
        r.unlocked_themes@ == (if stats.unlocked_themes@.len() == 0 { spec_default_themes() } else { stats.unlocked_themes@ }),
        r.unlocked_achievements@ == stats.unlocked_achievements@,
        r.games_played == stats.games_played,
        r.total_score == stats.total_score,
        r.total_food_eaten == stats.total_food_eaten,
        r.total_time_s == stats.total_time_s,
        r.coins == stats.coins,
        r.upgrade_powerup_duration == stats.upgrade_powerup_duration,
        r.upgrade_extra_lives == stats.upgrade_extra_lives,
        r.upgrade_laser_capacity == stats.upgrade_laser_capacity,
        r.upgrade_coin_multiplier == stats.upgrade_coin_multiplier,
        r.player_elo == stats.player_elo,
        r.bot_elo == stats.bot_elo,
{
    let mut stats = stats;
    if stats.unlocked_skins.len() == 0 {
        stats.unlocked_skins = default_unlocked_skins();
    }
    if stats.unlocked_themes.len() == 0 {
        stats.unlocked_themes = default_unlocked_themes();
    }
    stats
}

/// A shot travelling one way across the board; `player` 1 and 2 are the
/// snakes, 3 is a boss.
#[derive(Clone, Copy, Debug, PartialEq, Eq, Structural)]
pub struct Laser {
    pub position: Point,
    pub direction: Direction,
    pub player: u8,
}

/// The kinds of boss.
#[derive(Clone, Copy, Debug, PartialEq, Eq, Structural, Hash)]
pub enum BossType {
    Shooter,
    Charger,
    Spawner,
    Teleporter,
    Splitter,
    Trapper,
    Necromancer,
    ShadowClone,
    Mimic,
    Puffer,
    Juggernaut,
    Dragon,
    Mage,
    Gorgon,
    VampireLord,
}

impl Default for BossType {
    fn default() -> (r: BossType)
        ensures
            r == BossType::Shooter,
    {
        BossType::Shooter
    }
}

/// A boss roaming the board.
#[derive(Clone, Copy, Debug, PartialEq, Eq, Structural)]
pub struct Boss {
    pub position: Point,
    pub health: u32,
    pub max_health: u32,
    pub move_timer: u8,
    pub shoot_timer: u8,
    pub kind: BossType,
    pub state_timer: u8,
}

} // verus!
