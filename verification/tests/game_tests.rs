use rand::rngs::StdRng;
use rand::SeedableRng;
use snake_game::classic::ClassicGame;
use snake_game::clock::now_millis;
use snake_game::game::{Effect, Game};
use snake_game::kinds::{Boss, BossType, Difficulty, GameMode, GameState, Laser, PowerUp, PowerUpType, Theme, Weather};
use snake_game::score_file::{format_high_scores, parse_high_scores};
use snake_game::scores::{get_high_score_filename, record_score};
use snake_game::snake::{Direction, Point, Snake};

fn pt(x: u16, y: u16) -> Point {
    Point { x, y }
}

#[test]
fn test_generate_dungeon_obstacles() {
    let mut rng = StdRng::from_entropy();
    let width = 20;
    let height = 20;
    let obstacles = Game::generate_dungeon_obstacles(width, height, &mut rng);

    assert!(!obstacles.is_empty(), "Dungeon generation should create obstacles (walls)");

    let start_x = width / 2;
    let start_y = height / 2;

    for dy in -2..=2 {
        for dx in -2..=2 {
            let cx = i32::from(start_x) + dx;
            let cy = i32::from(start_y) + dy;
            if cx > 0 && cx < i32::from(width - 1) && cy > 0 && cy < i32::from(height - 1) {
                assert!(
                    !obstacles.contains(pt(cx as u16, cy as u16)),
                    "Center area should be free of obstacles in dungeon mode"
                );
            }
        }
    }
}

#[test]
fn test_generate_cave_obstacles() {
    let mut rng = StdRng::from_entropy();
    let width = 20;
    let height = 20;
    let obstacles = Game::generate_cave_obstacles(width, height, &mut rng);

    assert!(!obstacles.is_empty(), "Cave generation should create obstacles");

    let start_x = width / 2;
    let start_y = height / 2;

    for dy in -3..=3 {
        for dx in -3..=3 {
            let cx = start_x as i32 + dx;
            let cy = start_y as i32 + dy;
            if cx > 0 && cx < (width - 1) as i32 && cy > 0 && cy < (height - 1) as i32 {
                assert!(!obstacles.contains(pt(cx as u16, cy as u16)), "Center area should be free of obstacles");
            }
        }
    }
}

#[test]
fn test_portal_teleportation() {
    let mut game = Game::new(20, 20, false, 'x', Theme::Classic, Difficulty::Normal);

    game.snake = Snake::new(pt(10, 10));
    game.snake.direction = Direction::Right;

    let p1 = pt(11, 10);
    let p2 = pt(5, 5);
    game.portals = Some((p1, p2));

    let (final_head1, _final_head2, hit_wall1, _hit_wall2) = game.calculate_final_heads();

    assert_eq!(final_head1, p2);
    assert!(!hit_wall1);
}

#[test]
fn test_save_and_load_settings() {
    let mut game1 = Game::new(20, 20, true, '@', Theme::Neon, Difficulty::Hard);

    game1.snake.body.clear();
    game1.snake.body.push_back(pt(10, 10));
    game1.food = pt(5, 5);
    game1.obstacles.clear();

    let now = now_millis();
    let saved = game1.to_save_state(now);

    let mut game2 = Game::new(20, 20, false, '█', Theme::Classic, Difficulty::Easy);
    let success = game2.load_save_state(saved, now);

    assert!(success);
    assert_eq!(game2.difficulty, Difficulty::Hard);
    assert_eq!(game2.theme, Theme::Neon);
    assert!(game2.wrap_mode);
    assert_eq!(game2.skin, '@');
}

#[test]
fn test_save_and_load_high_scores() {
    let mut game = Game::new(20, 20, false, '#', Theme::Dark, Difficulty::Normal);
    game.high_scores.clear();

    game.save_high_score("Alice".to_string(), 100);
    game.save_high_score("Bob".to_string(), 200);
    game.save_high_score("Charlie".to_string(), 50);

    let loaded_scores = game.high_scores.clone();

    assert_eq!(loaded_scores.len(), 3);
    assert_eq!(loaded_scores[0], ("Bob".to_string(), 200));
    assert_eq!(loaded_scores[1], ("Alice".to_string(), 100));
    assert_eq!(loaded_scores[2], ("Charlie".to_string(), 50));
}

#[test]
fn test_save_and_load_auto_pilot() {
    let mut game = Game::new(20, 20, false, '#', Theme::Dark, Difficulty::Normal);
    game.auto_pilot = true;

    let now = now_millis();
    let saved = game.to_save_state(now);

    let mut new_game = Game::new(20, 20, false, '#', Theme::Dark, Difficulty::Normal);
    assert!(!new_game.auto_pilot);

    let loaded = new_game.load_save_state(saved, now);
    assert!(loaded);
    assert!(new_game.auto_pilot);
}

#[test]
fn test_reset_clears_power_up() {
    let mut game = Game::new(20, 20, false, 'x', Theme::Classic, Difficulty::Normal);
    game.power_up = Some(PowerUp { p_type: PowerUpType::SpeedBoost, location: pt(5, 5), activation_time: None });
    game.reset();
    assert!(game.power_up.is_none(), "Power-up should be cleared on reset");
}

#[test]
fn test_reset_clears_bot_flags() {
    let mut game = Game::new(20, 20, false, 'x', Theme::Classic, Difficulty::Normal);
    game.auto_pilot = true;
    game.used_bot_this_session = true;
    game.reset();
    assert!(!game.used_bot_this_session && !game.auto_pilot, "Bot flags should be cleared on reset");
}

#[test]
fn test_calculate_autopilot_move_to_food() {
    let mut game = Game::new(20, 20, false, 'x', Theme::Classic, Difficulty::Normal);
    game.snake = Snake::new(pt(10, 10));
    game.food = pt(10, 8);
    let next_move = game.calculate_autopilot_move();
    assert_eq!(next_move, Some(Direction::Up));
}

#[test]
fn test_apply_magnet() {
    let mut game = Game::new(20, 20, false, 'x', Theme::Classic, Difficulty::Normal);
    game.snake = Snake::new(pt(10, 10));
    game.food = pt(10, 15);
    game.obstacles.clear();
    game.power_up = Some(PowerUp {
        p_type: PowerUpType::Magnet,
        location: pt(1, 1),
        activation_time: Some(
            web_time::SystemTime::now().duration_since(web_time::SystemTime::UNIX_EPOCH).unwrap_or_default().as_secs(),
        ),
    });

    for _ in 0..100 {
        game.apply_magnet();
        if game.food.y < 15 {
            break;
        }
    }

    assert!(game.food.y < 15, "Food should have moved closer to the snake");
}

#[test]
fn test_generate_maze_obstacles() {
    let mut rng = StdRng::from_entropy();
    let width = 21;
    let height = 21;
    let obstacles = Game::generate_maze_obstacles(width, height, &mut rng);

    assert!(!obstacles.is_empty(), "Maze generation should create obstacles");

    let start_x = width / 2;
    let start_y = height / 2;

    for dy in -2..=2 {
        for dx in -2..=2 {
            let cx = i32::from(start_x) + dx;
            let cy = i32::from(start_y) + dy;
            if cx > 0 && cx <= i32::from(width - 2) && cy > 0 && cy <= i32::from(height - 2) {
                assert!(!obstacles.contains(pt(cx as u16, cy as u16)), "Center area should be free of obstacles");
            }
        }
    }
}

#[test]
fn test_bfs_pathfind() {
    let mut game = Game::new(20, 20, false, 'x', Theme::Classic, Difficulty::Normal);
    game.obstacles.clear();
    for x in 8..=12 {
        game.obstacles.insert(pt(x, 10));
    }

    let start = pt(10, 5);
    let target = pt(10, 15);

    let dir = game.bfs_pathfind(start, target);
    assert!(dir.is_some(), "BFS should find a path around the wall");

    let mut current = start;
    let mut reached = false;
    for _ in 0..100 {
        if current == target {
            reached = true;
            break;
        }
        if let Some(next_dir) = game.bfs_pathfind(current, target) {
            current = Game::calculate_next_head_dir(current, next_dir);
            assert!(!game.obstacles.contains(current), "Path should not hit obstacles");
        } else {
            break;
        }
    }

    assert!(reached, "Following BFS should reach target");
}

#[test]
fn test_daily_challenge_determinism() {
    let mut game1 = Game::new(20, 20, false, 'x', Theme::Classic, Difficulty::Normal);
    game1.mode = GameMode::DailyChallenge;
    game1.reset();

    let mut game2 = Game::new(20, 20, false, 'x', Theme::Classic, Difficulty::Normal);
    game2.mode = GameMode::DailyChallenge;
    game2.reset();

    assert_eq!(game1.food, game2.food);
    assert_eq!(game1.obstacles, game2.obstacles);

    for _ in 0..5 {
        let next_food = game1.food;
        game1.snake.move_to(next_food, true);
        game1.process_food_collision(next_food, false);

        game2.snake.move_to(next_food, true);
        game2.process_food_collision(next_food, false);

        assert_eq!(game1.food, game2.food, "Food generation drifted");
        assert_eq!(game1.obstacles, game2.obstacles, "Obstacles generation drifted");
    }
}

#[test]
fn test_upgrades() {
    let mut game = Game::new(20, 20, false, 'x', Theme::Classic, Difficulty::Normal);

    game.stats.upgrade_extra_lives = 2;
    game.reset();
    assert_eq!(game.lives, 5);

    game.stats.upgrade_powerup_duration = 3;
    assert_eq!(game.powerup_duration(), 8);

    game.stats.upgrade_laser_capacity = 2;
    game.lasers.clear();
    for _ in 0..10 {
        game.shoot_laser(1);
    }
    let active_lasers = game.lasers.iter().filter(|l| l.player == 1).count();
    assert_eq!(active_lasers, 5);

    game.stats.upgrade_coin_multiplier = 5;
    let initial_coins = game.stats.coins;
    let p = game.food;
    game.snake.move_to(p, true);
    game.process_food_collision(p, false);
    assert_eq!(game.stats.coins - initial_coins, 4);
}

#[test]
fn test_weather_random_transition() {
    let mut game = Game::new(20, 20, false, 'x', Theme::Classic, Difficulty::Normal);
    game.state = GameState::Playing;
    game.weather = Weather::Snow;
    assert_eq!(game.weather, Weather::Snow, "Weather state should be mutable and hold correctly");
}

#[test]
fn test_lightning_column_strike() {
    let mut game = Game::new(20, 20, false, 'x', Theme::Classic, Difficulty::Normal);
    game.state = GameState::Playing;
    game.weather = Weather::Storm;
    game.rng = StdRng::seed_from_u64(42);

    let mut struck = false;
    for _ in 0..10000 {
        game.weather = Weather::Storm;
        let old_lives = game.lives;
        game.update();
        game.lives = old_lives;
        game.state = GameState::Playing;
        game.weather = Weather::Storm;
        if game.lightning_column.is_some() {
            struck = true;
            break;
        }
    }

    assert!(struck, "Lightning should strike during a storm");
}

#[test]
fn test_calculate_autopilot_avoids_boss() {
    let mut game = Game::new(20, 20, false, 'x', Theme::Classic, Difficulty::Normal);
    game.snake = Snake::new(pt(5, 5));
    game.snake.direction = Direction::Right;
    game.food = pt(9, 5);

    game.boss = Some(Boss {
        position: pt(6, 5),
        health: 10,
        max_health: 10,
        move_timer: 0,
        shoot_timer: 0,
        kind: BossType::Shooter,
        state_timer: 0,
    });

    let next_move = game.calculate_autopilot_move();
    assert!(next_move == Some(Direction::Up) || next_move == Some(Direction::Down));
}

#[test]
fn test_calculate_autopilot_avoids_laser() {
    let mut game = Game::new(20, 20, false, 'x', Theme::Classic, Difficulty::Normal);
    game.snake = Snake::new(pt(5, 5));
    game.snake.direction = Direction::Right;
    game.food = pt(9, 5);

    game.lasers.push(Laser { position: pt(6, 5), direction: Direction::Left, player: 0 });

    let next_move = game.calculate_autopilot_move();
    assert!(next_move == Some(Direction::Up) || next_move == Some(Direction::Down));
}

#[test]
fn test_calculate_autopilot_uses_portals() {
    let mut game = Game::new(20, 20, false, 'x', Theme::Classic, Difficulty::Normal);
    game.snake = Snake::new(pt(2, 2));
    game.snake.direction = Direction::Down;
    game.food = pt(18, 18);
    let p1 = pt(3, 2);
    let p2 = pt(17, 18);
    game.portals = Some((p1, p2));
    game.obstacles.clear();

    let next_move = game.calculate_autopilot_move();
    assert_eq!(next_move, Some(Direction::Right));
}

#[test]
fn test_evolve_game_of_life() {
    let mut game = Game::new(20, 20, false, 'x', Theme::Classic, Difficulty::Normal);
    game.mode = GameMode::Evolution;

    game.obstacles.clear();
    game.obstacles.insert(pt(2, 1));
    game.obstacles.insert(pt(3, 2));
    game.obstacles.insert(pt(1, 3));
    game.obstacles.insert(pt(2, 3));
    game.obstacles.insert(pt(3, 3));

    game.snake = Snake::new(pt(10, 10));
    game.player2 = None;
    game.food = pt(15, 15);
    game.bonus_food = None;
    game.power_up = None;

    game.evolve_game_of_life();

    assert!(!game.obstacles.contains(pt(2, 1)));
    assert!(game.obstacles.contains(pt(1, 2)));
    assert!(game.obstacles.contains(pt(3, 2)));
    assert!(game.obstacles.contains(pt(2, 3)));
    assert!(game.obstacles.contains(pt(3, 3)));
    assert!(game.obstacles.contains(pt(2, 4)));
}

// ---- the tick of play ----

#[test]
fn tick_outside_play_changes_nothing() {
    let mut game = Game::new(20, 20, false, 'x', Theme::Classic, Difficulty::Normal);
    game.state = GameState::Paused;
    let before = game.snake.body.clone();
    game.update_at(1_000_000);
    assert_eq!(game.snake.body, before);
    assert_eq!(game.history.len(), 0);
}

#[test]
fn tick_then_rewind_restores_the_moment() {
    let mut game = Game::new(20, 20, false, 'x', Theme::Classic, Difficulty::Normal);
    game.state = GameState::Playing;
    game.snake = Snake::new(pt(10, 10));
    game.food = pt(3, 3);
    let body = game.snake.body.clone();
    let food = game.food;
    let score = game.score;
    game.update_at(1_000_000);
    assert_eq!(game.history.len(), 1);
    assert_ne!(game.snake.body, body);
    game.rewind_time();
    assert_eq!(game.snake.body, body);
    assert_eq!(game.food, food);
    assert_eq!(game.score, score);
}

#[test]
fn tick_moves_the_snake_one_cell() {
    let mut game = Game::new(20, 20, false, 'x', Theme::Classic, Difficulty::Normal);
    game.state = GameState::Playing;
    game.obstacles.clear();
    game.snake = Snake::new(pt(10, 10));
    game.food = pt(3, 3);
    game.update_at(1_000_000);
    if game.lives == 3 {
        assert_eq!(game.snake.body[0], pt(10, 9));
        assert_eq!(game.snake.body.len(), 3);
    }
}

#[test]
fn time_attack_ends_after_a_minute() {
    let mut game = Game::new(20, 20, false, 'x', Theme::Classic, Difficulty::Normal);
    game.mode = GameMode::TimeAttack;
    game.state = GameState::Playing;
    game.start_time = 1_000;
    game.update_at(61_000);
    assert_eq!(game.lives, 2);
    assert!(game.just_died);
}

#[test]
fn speedrun_is_won_at_fifty_foods() {
    let mut game = Game::new(20, 20, false, 'x', Theme::Classic, Difficulty::Normal);
    game.mode = GameMode::Speedrun;
    game.state = GameState::Playing;
    game.food_eaten_session = 50;
    game.update_at(1_000_000);
    assert!(game.state == GameState::GameWon || game.state == GameState::EnterName);
    assert_eq!(game.lives, 3);
    assert_eq!(game.stats.games_played, 1);
}

#[test]
fn running_into_the_wall_costs_a_life() {
    let mut game = Game::new(20, 20, false, 'x', Theme::Classic, Difficulty::Normal);
    game.state = GameState::Playing;
    game.obstacles.clear();
    game.snake = Snake::new(pt(10, 1));
    game.food = pt(3, 3);
    game.update_at(1_000_000);
    assert_eq!(game.lives, 2);
    assert!(game.just_died);
}

#[test]
fn last_life_lost_ends_the_game_with_a_message() {
    let mut game = Game::new(20, 20, false, 'x', Theme::Classic, Difficulty::Normal);
    game.state = GameState::Playing;
    game.lives = 1;
    game.obstacles.clear();
    game.snake = Snake::new(pt(10, 1));
    game.food = pt(3, 3);
    game.update_at(1_000_000);
    assert_eq!(game.lives, 0);
    assert_eq!(game.state, GameState::GameOver);
    assert_eq!(game.death_message, "You Died!");
}

#[test]
fn a_game_without_lives_is_not_ready_to_tick() {
    let mut game = Game::new(20, 20, false, 'x', Theme::Classic, Difficulty::Normal);
    game.state = GameState::Playing;
    assert!(game.is_tick_ready());
    game.lives = 0;
    assert!(!game.is_tick_ready());
    let before = game.snake.body.clone();
    game.update();
    assert_eq!(game.snake.body, before);
}

#[test]
fn crashes_into_walls_and_each_other() {
    let game = Game::new(20, 20, false, 'x', Theme::Classic, Difficulty::Normal);
    assert_eq!(game.check_crashes(pt(5, 5), None, true, false, false), (true, false));
    assert_eq!(game.check_crashes(pt(5, 5), Some(pt(5, 5)), false, false, false), (true, true));
}

#[test]
fn a_laser_in_the_way_kills_unless_invincible() {
    let mut game = Game::new(20, 20, false, 'x', Theme::Classic, Difficulty::Normal);
    game.obstacles.clear();
    game.lasers.push(Laser { position: pt(5, 5), direction: Direction::Left, player: 2 });
    assert_eq!(game.check_crashes(pt(5, 5), None, false, false, false), (true, false));
    assert_eq!(game.check_crashes(pt(5, 5), None, false, false, true), (false, false));
}

#[test]
fn battle_royale_zone_shrinks_after_ten_seconds() {
    let mut game = Game::new(20, 20, false, 'x', Theme::Classic, Difficulty::Normal);
    game.mode = GameMode::BattleRoyale;
    game.last_shrink_time = 0;
    game.effects.clear();
    game.zone_phase(5_000);
    assert_eq!(game.safe_zone_margin, 0);
    game.zone_phase(10_000);
    assert_eq!(game.safe_zone_margin, 1);
    assert_eq!(game.last_shrink_time, 10_000);
    assert_eq!(game.effects.last(), Some(&Effect::Beep));
}

#[test]
fn survival_adds_an_obstacle_every_three_seconds() {
    let mut game = Game::new(20, 20, false, 'x', Theme::Classic, Difficulty::Normal);
    game.mode = GameMode::Survival;
    game.obstacles.clear();
    game.last_obstacle_spawn_time = 0;
    game.spawn_phase(2_000);
    assert_eq!(game.obstacles.count(), 0);
    game.spawn_phase(3_000);
    assert_eq!(game.obstacles.count(), 1);
    assert_eq!(game.last_obstacle_spawn_time, 3_000);
}

#[test]
fn a_save_with_food_outside_the_walls_is_refused() {
    let game1 = Game::new(20, 20, false, 'x', Theme::Classic, Difficulty::Normal);
    let mut saved = game1.to_save_state(1_000);
    saved.food = pt(0, 5);
    let mut game2 = Game::new(20, 20, false, 'x', Theme::Classic, Difficulty::Normal);
    let food = game2.food;
    assert!(!game2.load_save_state(saved, 1_000));
    assert_eq!(game2.food, food);
}

#[test]
fn a_loaded_game_is_paused_with_its_timers_restarted() {
    let mut game1 = Game::new(20, 20, false, 'x', Theme::Classic, Difficulty::Normal);
    game1.bonus_food = Some((pt(4, 4), 3_000));
    game1.score = 42;
    let saved = game1.to_save_state(10_500);
    assert_eq!(saved.bonus_food, Some((pt(4, 4), 7)));
    let mut game2 = Game::new(20, 20, false, 'x', Theme::Classic, Difficulty::Normal);
    assert!(game2.load_save_state(saved, 20_000));
    assert_eq!(game2.state, GameState::Paused);
    assert_eq!(game2.score, 42);
    assert_eq!(game2.bonus_food, Some((pt(4, 4), 13_000)));
    assert_eq!(game2.start_time, 20_000);
}

// ---- the high-score file ----

#[test]
fn high_score_text_reads_back() {
    let list = vec![("Bob".to_string(), 200), ("Alice Smith".to_string(), 100), ("C".to_string(), 0)];
    let text = format_high_scores(&list);
    assert_eq!(text, "Bob 200\nAlice Smith 100\nC 0");
    assert_eq!(parse_high_scores(&text), list);
}

#[test]
fn high_score_lines_that_do_not_read_are_skipped() {
    let text = "Ann  7\r\n\nlonely\n  Big   Name\t+42  \nX 4294967296\nY 12a\nZ 4294967295";
    let parsed = parse_high_scores(text);
    assert_eq!(
        parsed,
        vec![("Ann".to_string(), 7), ("Big Name".to_string(), 42), ("Z".to_string(), 4294967295)]
    );
}

#[test]
fn an_empty_high_score_file_has_no_entries() {
    assert!(parse_high_scores("").is_empty());
    assert_eq!(format_high_scores(&Vec::new()), "");
}

#[test]
fn high_score_file_names_follow_difficulty_and_mode() {
    assert_eq!(get_high_score_filename(Difficulty::Normal, GameMode::SinglePlayer), "highscore_normal.txt");
}

#[test]
fn recording_a_score_keeps_the_best_five_in_order() {
    let mut list = Vec::new();
    for (i, s) in [10u32, 50, 30, 70, 20, 60].iter().enumerate() {
        list = record_score(list, format!("p{i}"), *s);
    }
    let scores: Vec<u32> = list.iter().map(|(_, s)| *s).collect();
    assert_eq!(scores, vec![70, 60, 50, 30, 20]);
    let list = record_score(list, "p1".to_string(), 80);
    assert_eq!(list[0], ("p1".to_string(), 80));
    assert_eq!(list.len(), 5);
}

// ---- the flow field ----

#[test]
fn flow_field_points_at_the_target() {
    let mut game = Game::new(20, 20, false, 'x', Theme::Classic, Difficulty::Normal);
    game.obstacles.clear();
    let target = pt(10, 5);
    let field = game.generate_flow_field_at(&vec![target], 0);
    assert_eq!(field.get(target), None);
    assert_eq!(field.get(pt(10, 6)), Some(Direction::Up));
    assert_eq!(field.get(pt(9, 5)), Some(Direction::Right));
    assert_eq!(field.get(pt(11, 5)), Some(Direction::Left));
    assert_eq!(field.get(pt(10, 4)), Some(Direction::Down));
    assert_eq!(field.get(pt(0, 0)), None);
}

#[test]
fn following_the_flow_field_reaches_the_target() {
    let mut game = Game::new(20, 20, false, 'x', Theme::Classic, Difficulty::Normal);
    game.obstacles.clear();
    for x in 3..=16 {
        game.obstacles.insert(pt(x, 8));
    }
    let target = pt(10, 3);
    let field = game.generate_flow_field_at(&vec![target], 0);
    let mut at = pt(10, 15);
    for _ in 0..200 {
        if at == target {
            break;
        }
        let dir = field.get(at).expect("an arrow on the way");
        at = Game::calculate_next_head_dir(at, dir);
        assert!(!game.obstacles.contains(at));
    }
    assert_eq!(at, target);
}

#[test]
fn default_settings_are_a_forty_by_twenty_classic_board() {
    let a = snake_game::config::Args::default();
    assert_eq!((a.width, a.height, a.wrap, a.skin), (40, 20, false, '█'));
    assert_eq!(a.theme, "classic");
}

#[test]
fn a_save_with_a_laser_on_the_wall_loads() {
    let mut game1 = Game::new(20, 20, false, 'x', Theme::Classic, Difficulty::Normal);
    game1.lasers.push(Laser { position: pt(0, 0), direction: Direction::Up, player: 1 });
    let saved = game1.to_save_state(1_000);
    let mut game2 = Game::new(20, 20, false, 'x', Theme::Classic, Difficulty::Normal);
    assert!(game2.load_save_state(saved, 2_000));
    assert_eq!(game2.lasers.len(), 1);
    assert_eq!(game2.lasers[0].position, pt(0, 0));
}

#[test]
fn a_new_game_fits_a_small_board() {
    let game = Game::new(6, 7, false, 'x', Theme::Classic, Difficulty::Normal);
    assert_eq!(game.snake.head(), pt(3, 3));
    assert!(game.food.x >= 1 && game.food.x <= 4 && game.food.y >= 1 && game.food.y <= 5);
    assert!(!game.obstacles.contains(game.food));
    assert!(!game.obstacles.contains(pt(3, 2)));
}

#[test]
fn maze_pillars_stay_walls() {
    let mut rng = StdRng::from_entropy();
    let obstacles = Game::generate_maze_obstacles(21, 21, &mut rng);
    for y in (2..=18u16).step_by(2) {
        for x in (2..=18u16).step_by(2) {
            let near_centre = x.abs_diff(10) <= 2 && y.abs_diff(10) <= 2;
            if !near_centre {
                assert!(obstacles.contains(pt(x, y)), "pillar ({x}, {y}) missing");
            }
        }
    }
}

#[test]
fn dungeon_keeps_its_first_row_and_column() {
    let mut rng = StdRng::from_entropy();
    let obstacles = Game::generate_dungeon_obstacles(20, 20, &mut rng);
    for i in 1..=18u16 {
        assert!(obstacles.contains(pt(1, i)));
        assert!(obstacles.contains(pt(i, 1)));
    }
}

#[test]
fn a_tick_onto_the_food_grows_the_snake() {
    let mut game = Game::new(20, 20, false, 'x', Theme::Classic, Difficulty::Normal);
    game.reset();
    game.obstacles.clear();
    game.snake = Snake::new(pt(10, 10));
    game.food = pt(10, 9);
    let now = game.start_time + 1_000;
    let before = game.snake.body.len();
    game.update_at(now);
    assert_eq!(game.state, GameState::Playing);
    assert_eq!(game.snake.body.len(), before + 1);
    assert_eq!(game.snake.head(), pt(10, 9));
    assert_ne!(game.food, pt(10, 9));
}

#[test]
fn a_cave_keeps_its_corner_wall() {
    let mut rng = StdRng::from_entropy();
    let obstacles = Game::generate_cave_obstacles(20, 20, &mut rng);
    assert!(obstacles.contains(pt(1, 1)));
}

#[test]
fn a_tick_into_its_own_body_costs_a_life() {
    let mut game = Game::new(20, 20, false, 'x', Theme::Classic, Difficulty::Normal);
    game.reset();
    game.obstacles.clear();
    let mut s = Snake::new(pt(10, 10));
    s.move_to(pt(11, 10), true);
    s.move_to(pt(11, 11), true);
    s.move_to(pt(10, 11), true);
    // body: (10,11) (11,11) (11,10) (10,10) (10,11)... head at (10,11) heading Up into (10,10)
    game.snake = s;
    game.food = pt(3, 3);
    let lives = game.lives;
    let now = game.start_time + 1_000;
    game.update_at(now);
    assert_eq!(game.lives, lives - 1);
    assert!(game.just_died);
}

#[test]
fn a_tick_moves_both_snakes_one_cell() {
    let mut game = Game::new(30, 20, false, 'x', Theme::Classic, Difficulty::Normal);
    game.mode = GameMode::LocalMultiplayer;
    game.reset();
    game.obstacles.clear();
    game.food = pt(2, 17);
    let h1 = game.snake.head();
    let h2 = game.player2.as_ref().unwrap().head();
    let n2 = game.player2.as_ref().unwrap().body.len();
    let now = game.start_time + 1_000;
    game.update_at(now);
    assert_eq!(game.snake.head(), pt(h1.x, h1.y - 1));
    let p2 = game.player2.as_ref().unwrap();
    assert_eq!(p2.head(), pt(h2.x, h2.y - 1));
    assert_eq!(p2.body.len(), n2);
}

#[test]
fn a_save_with_a_laser_off_the_board_loads_without_it() {
    let game1 = Game::new(20, 20, false, 'x', Theme::Classic, Difficulty::Normal);
    let mut saved = game1.to_save_state(1_000);
    saved.lasers.push(Laser { position: pt(u16::MAX, 5), direction: Direction::Right, player: 1 });
    saved.lasers.push(Laser { position: pt(6, 5), direction: Direction::Left, player: 1 });
    let mut game2 = Game::new(20, 20, false, 'x', Theme::Classic, Difficulty::Normal);
    assert!(game2.load_save_state(saved, 1_000));
    assert_eq!(game2.lasers.len(), 1);
    assert_eq!(game2.lasers[0].position, pt(6, 5));
}

#[test]
fn a_save_with_a_boss_off_the_board_loads_without_it() {
    let game1 = Game::new(20, 20, false, 'x', Theme::Classic, Difficulty::Normal);
    let mut saved = game1.to_save_state(1_000);
    saved.boss = Some(Boss {
        position: pt(40, 40),
        health: 10,
        max_health: 10,
        move_timer: 0,
        shoot_timer: 0,
        kind: BossType::Shooter,
        state_timer: 0,
    });
    let mut game2 = Game::new(20, 20, false, 'x', Theme::Classic, Difficulty::Normal);
    assert!(game2.load_save_state(saved, 1_000));
    assert!(game2.boss.is_none());
}

#[test]
fn a_save_with_a_wide_safe_zone_margin_loads_with_the_margin_cut() {
    let game1 = Game::new(20, 20, false, 'x', Theme::Classic, Difficulty::Normal);
    let mut saved = game1.to_save_state(1_000);
    saved.safe_zone_margin = 1_000;
    let mut game2 = Game::new(20, 20, false, 'x', Theme::Classic, Difficulty::Normal);
    assert!(game2.load_save_state(saved, 1_000));
    assert_eq!(game2.safe_zone_margin, 8);
}

#[test]
fn the_plain_game_starts_in_the_middle_facing_up() {
    let game = ClassicGame::new(StdRng::seed_from_u64(7));
    assert_eq!(game.snake.body, vec![pt(20, 10), pt(20, 11), pt(20, 12)]);
    assert_eq!(game.snake.direction, Direction::Up);
    assert!(!game.snake.body.contains(&game.food));
    assert!(game.food.x >= 1 && game.food.x <= 38 && game.food.y >= 1 && game.food.y <= 18);
    assert_eq!(game.score, 0);
    assert!(!game.is_over);
}

#[test]
fn the_plain_game_moves_and_eats() {
    let mut game = ClassicGame::new(StdRng::seed_from_u64(7));
    game.food = pt(20, 9);
    game.update();
    assert_eq!(game.score, 1);
    assert_eq!(game.snake.body, vec![pt(20, 9), pt(20, 10), pt(20, 11), pt(20, 12)]);
    assert!(!game.snake.body[1..].contains(&game.food));
    game.food = pt(1, 1);
    game.update();
    assert_eq!(game.snake.body, vec![pt(20, 8), pt(20, 9), pt(20, 10), pt(20, 11)]);
    assert_eq!(game.score, 1);
}

#[test]
fn the_plain_game_ends_at_the_wall() {
    let mut game = ClassicGame::new(StdRng::seed_from_u64(7));
    game.snake.body = vec![pt(20, 1), pt(20, 2), pt(20, 3)];
    game.food = pt(5, 5);
    game.update();
    assert!(game.is_over);
    assert_eq!(game.snake.body, vec![pt(20, 1), pt(20, 2), pt(20, 3)]);
    game.update();
    assert!(game.is_over);
}

#[test]
fn the_plain_snake_may_move_into_its_tail() {
    let mut game = ClassicGame::new(StdRng::seed_from_u64(7));
    game.snake.body = vec![pt(5, 5), pt(6, 5), pt(6, 6), pt(5, 6)];
    game.snake.direction = Direction::Down;
    game.food = pt(10, 10);
    game.update();
    assert!(!game.is_over);
    assert_eq!(game.snake.body, vec![pt(5, 6), pt(5, 5), pt(6, 5), pt(6, 6)]);
}

#[test]
fn the_plain_snake_dies_on_its_body() {
    let mut game = ClassicGame::new(StdRng::seed_from_u64(7));
    game.snake.body = vec![pt(5, 5), pt(6, 5), pt(6, 6), pt(5, 6), pt(4, 6)];
    game.snake.direction = Direction::Down;
    game.food = pt(10, 10);
    game.update();
    assert!(game.is_over);
}

#[test]
fn a_maze_opens_every_odd_cell_and_is_connected() {
    let (w, h) = (21u16, 15u16);
    let maze = Game::generate_maze_obstacles(w, h, &mut StdRng::seed_from_u64(3));
    let mut open = Vec::new();
    for y in 1..h - 1 {
        for x in 1..w - 1 {
            if x % 2 == 1 && y % 2 == 1 {
                assert!(!maze.contains(pt(x, y)));
            }
            if !maze.contains(pt(x, y)) {
                open.push(pt(x, y));
            }
        }
    }
    let mut seen = vec![open[0]];
    let mut i = 0;
    while i < seen.len() {
        let c = seen[i];
        let around = [(c.x, c.y - 1), (c.x, c.y + 1), (c.x - 1, c.y), (c.x + 1, c.y)];
        for (x, y) in around {
            let q = pt(x, y);
            if x >= 1 && x < w - 1 && y >= 1 && y < h - 1 && !maze.contains(q) && !seen.contains(&q) {
                seen.push(q);
            }
        }
        i += 1;
    }
    assert_eq!(seen.len(), open.len());
}

#[test]
fn the_boss_search_takes_a_shortest_first_step() {
    let mut game = Game::new(20, 20, false, 'x', Theme::Classic, Difficulty::Normal);
    game.obstacles.clear();
    assert_eq!(game.bfs_pathfind(pt(5, 5), pt(5, 9)), Some(Direction::Down));
    assert_eq!(game.bfs_pathfind(pt(5, 5), pt(9, 5)), Some(Direction::Right));
    assert_eq!(game.bfs_pathfind(pt(5, 9), pt(5, 5)), Some(Direction::Up));
}
