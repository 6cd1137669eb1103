use crate::color::Color;
use crate::game::{sat_sub, Game};
use crate::kinds::GameMode;
use crate::rng::{gen_range_usize, gen_ratio};
use std::collections::VecDeque;
use vstd::prelude::*;

verus! {

broadcast use vstd::std_specs::vecdeque::group_vec_dequeue_axioms;

/// What the simulated spectators say.
pub open spec fn chat_messages() -> Seq<Seq<char>> {
    seq![
        "PogChamp"@, "Bot is insane!"@, "Drop skins!"@, "HODL"@, "LUL"@, "EZ"@, "F"@, "What a play"@, "200 IQ"@,
        "nerf snake pls"@, "kappa"@, "monkaS"@, "sheeeesh"@,
    ]
}

/// Who the simulated spectators are.
pub open spec fn chat_users() -> Seq<Seq<char>> {
    seq![
        "SnakeMaster99"@, "xX_Slayer_Xx"@, "CryptoBro"@, "GamerGirl"@, "BotSpectator"@, "Noob123"@, "ProPlayer"@,
        "Admin"@, "Mod"@, "VIP_User"@,
    ]
}

/// The colours of their lines.
pub open spec fn chat_colors() -> Seq<Color> {
    seq![Color::Red, Color::Green, Color::Yellow, Color::Blue, Color::Magenta, Color::Cyan, Color::White]
}

/// How long, in milliseconds, the chat waits between lines in `mode`.
pub open spec fn chat_interval(mode: GameMode) -> int {
    if mode == GameMode::SinglePlayer || mode == GameMode::DailyChallenge { 3000 } else { 500 }
}

/// Whether a chat line may come at `now` (milliseconds).
pub open spec fn chat_due(last: Option<u64>, mode: GameMode, now: u64) -> bool {
    match last {
        Some(t) => sat_sub(now as int, t as int) >= chat_interval(mode),
        None => true,
    }
}

/// Whether `line` is what spectator `u` says with message `m` in colour `c`:
/// the name, a colon and a space, and the message.
pub open spec fn chat_line(line: (Seq<char>, Color), u: int, m: int, c: int) -> bool {
    &&& 0 <= u < chat_users().len()
    &&& 0 <= m < chat_messages().len()
    &&& 0 <= c < chat_colors().len()
    &&& line.0 == chat_users()[u] + ": "@ + chat_messages()[m]
    &&& line.1 == chat_colors()[c]
}

/// The log `log` with `line` added, keeping the last ten lines.
pub open spec fn log_with(log: Seq<(String, Color)>, line: (String, Color)) -> Seq<(String, Color)> {
    if log.len() + 1 > 10 { log.push(line).drop_first() } else { log.push(line) }
}

fn chat_message(i: usize) -> (r: &'static str)
    requires
        i < 13,
    ensures
        r@ == chat_messages()[i as int],
{
    match i {
        0 => "PogChamp",
        1 => "Bot is insane!",
        2 => "Drop skins!",
        3 => "HODL",
        4 => "LUL",
        5 => "EZ",
        6 => "F",
        7 => "What a play",
        8 => "200 IQ",
        9 => "nerf snake pls",
        10 => "kappa",
        11 => "monkaS",
        _ => "sheeeesh",
    }
}

fn chat_user(i: usize) -> (r: &'static str)
    requires
        i < 10,
    ensures
        r@ == chat_users()[i as int],
{
    match i {
        0 => "SnakeMaster99",
        1 => "xX_Slayer_Xx",
        2 => "CryptoBro",
        3 => "GamerGirl",
        4 => "BotSpectator",
        5 => "Noob123",
        6 => "ProPlayer",
        7 => "Admin",
        8 => "Mod",
        _ => "VIP_User",
    }
}

fn chat_color(i: usize) -> (r: Color)
    requires
        i < 7,
    ensures
        r == chat_colors()[i as int],
{
    match i {
        0 => Color::Red,
        1 => Color::Green,
        2 => Color::Yellow,
        3 => Color::Blue,
        4 => Color::Magenta,
        5 => Color::Cyan,
        _ => Color::White,
    }
}

/// `user`, a colon and a space, and `msg`.
fn chat_text(user: &str, msg: &str) -> (r: String)
    ensures
        r@ == user@ + ": "@ + msg@,
{
    let mut line = String::from_str(user);
    line.append(": ");
    line.append(msg);
    line
}

/// Adds `line` to `log`, dropping the oldest line beyond ten.
fn push_chat(log: &mut VecDeque<(String, Color)>, line: (String, Color))
    ensures
        final(log)@ == log_with(old(log)@, line),
{
    log.push_back(line);
    if log.len() > 10 {
        let _ = log.pop_front();
    }
}

impl Game {
    /// The spectators' chat at `now` (milliseconds): once the interval of
    /// `chat_interval` has passed since the last line (or there was none),
    /// with chance 3 in 10 a random spectator says a random message in a
    /// random colour (see `chat_line`), and the log keeps its last ten
    /// lines. Nothing else changes.
    pub fn chat_phase(&mut self, now: u64)
        requires
            old(self).wf(),
        ensures
            final(self).wf(),
            final(self).snakes_same(*old(self)),
            final(self).board_same(*old(self)),
            final(self).progress_same(*old(self)),
            final(self).effects@ == old(self).effects@,
            final(self).history@ == old(self).history@,
            final(self).mode == old(self).mode,
            final(self).last_chat_time == old(self).last_chat_time && final(self).chat_log@ == old(self).chat_log@ || (chat_due(
                old(self).last_chat_time,
                old(self).mode,
                now,
            ) && final(self).last_chat_time == Some(now) && final(self).chat_log@ == log_with(
                old(self).chat_log@,
                final(self).chat_log@.last(),
            ) && exists|u: int, m: int, c: int| chat_line((final(self).chat_log@.last().0@, final(self).chat_log@.last().1), u, m, c)),
            !chat_due(old(self).last_chat_time, old(self).mode, now) ==> final(self).chat_log@ == old(self).chat_log@
                && final(self).last_chat_time == old(self).last_chat_time,
            old(self).chat_log@.len() <= 10 ==> final(self).chat_log@.len() <= 10,
    {
        let interval: u64 = if self.mode == GameMode::SinglePlayer || self.mode == GameMode::DailyChallenge { 3000 } else { 500 };
        let due = match self.last_chat_time {
            Some(t) => (if now >= t { now - t } else { 0 }) >= interval,
            None => true,
        };
        if due && gen_ratio(&mut self.rng, 3, 10) {
            let m = gen_range_usize(&mut self.rng, 0, 13);
            let u = gen_range_usize(&mut self.rng, 0, 10);
            let c = gen_range_usize(&mut self.rng, 0, 7);
            let text = chat_text(chat_user(u), chat_message(m));
            let color = chat_color(c);
            push_chat(&mut self.chat_log, (text, color));
            self.last_chat_time = Some(now);
            assert(chat_line((self.chat_log@.last().0@, self.chat_log@.last().1), u as int, m as int, c as int));
        }
    }
}

} // verus!
