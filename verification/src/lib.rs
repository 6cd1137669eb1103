pub mod snake;
pub mod food;
pub mod kinds;
pub mod catalog;
pub mod rng;
pub mod pointset;
pub mod levels;
pub mod dungeon;
pub mod color;
pub mod clock;
pub mod game;
pub mod scores;
pub mod play;
pub mod grid;
pub mod autopilot;
pub mod tick;
pub mod chat;
pub mod lasers;
pub mod modes;
pub mod items;
pub mod resolve;
pub mod outcome;
pub mod update;
pub mod save;
pub mod score_file;
pub mod flow;
pub mod config;
pub mod classic;
