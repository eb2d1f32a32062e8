//! The line dispatcher and the response encoder: one protocol line in, at
//! most one state mutation and at most one response line out.

use crate::game::spec_game_update;
use crate::game::spec_game_update_err;
use crate::game::spec_update_settings;
use crate::game::Game;
use crate::game::GameV;
use crate::num::dec_str;
use crate::num::is_usize_str;
use crate::num::parse_usize;
use crate::num::usize_to_string;
use crate::split::split_spec;
use crate::split::split_str;
use crate::split::str_eq;
use crate::ProtocolError;
use vstd::prelude::*;
use vstd::string::*;

verus! {

/// The bot's character choice.
#[derive(Clone, Copy, PartialEq, Eq, Structural, Debug)]
pub enum ChooseCharacter {
    Bixie,
    Bixiette,
}

/// The wire form of a character choice: one fixed lowercase identifier.
pub open spec fn spec_character_line(c: ChooseCharacter) -> Seq<char> {
    match c {
        ChooseCharacter::Bixie => "bixie"@,
        ChooseCharacter::Bixiette => "bixiette"@,
    }
}

impl ChooseCharacter {
    /// Render this choice as its response line.
    pub fn encode(&self) -> (r: String)
        ensures
            r@ == spec_character_line(*self),
    {
        match *self {
            ChooseCharacter::Bixie => "bixie".to_owned(),
            ChooseCharacter::Bixiette => "bixiette".to_owned(),
        }
    }
}

/// One of the four movement directions.
#[derive(Clone, Copy, PartialEq, Eq, Structural, Debug)]
pub enum Direction {
    Up,
    Down,
    Left,
    Right,
}

/// The wire form of a direction: its lowercase name.
pub open spec fn spec_direction_str(d: Direction) -> Seq<char> {
    match d {
        Direction::Up => "up"@,
        Direction::Down => "down"@,
        Direction::Left => "left"@,
        Direction::Right => "right"@,
    }
}

impl Direction {
    /// Render this direction as its wire word.
    pub fn encode(&self) -> (r: String)
        ensures
            r@ == spec_direction_str(*self),
    {
        match *self {
            Direction::Up => "up".to_owned(),
            Direction::Down => "down".to_owned(),
            Direction::Left => "left".to_owned(),
            Direction::Right => "right".to_owned(),
        }
    }
}

/// The bot's move choice for one round.
#[derive(Clone, Copy, PartialEq, Eq, Structural, Debug)]
pub enum Move {
    /// Step in a direction.
    Direction { direction: Direction },
    /// Step in a direction and drop a bomb with that many rounds of fuse.
    DropBomb { direction: Direction, rounds: usize },
    /// Stay put.
    Pass,
}

/// The wire form of a move: the direction word, with `;drop_bomb <rounds>`
/// appended when a bomb is dropped, or the bare word `pass`.
pub open spec fn spec_move_line(m: Move) -> Seq<char> {
    match m {
        Move::Direction { direction } => spec_direction_str(direction),
        Move::DropBomb { direction, rounds } => spec_direction_str(direction) + ";drop_bomb "@
            + dec_str(rounds as int),
        Move::Pass => "pass"@,
    }
}

impl Move {
    /// Render this move as its response line.
    pub fn encode(&self) -> (r: String)
        ensures
            r@ == spec_move_line(*self),
    {
        match *self {
            Move::Direction { direction } => direction.encode(),
            Move::DropBomb { direction, rounds } => {
                let mut r = direction.encode();
                r.append(";drop_bomb ");
                let num = usize_to_string(rounds);
                r.append(num.as_str());
                assert(r@ =~= spec_move_line(*self));
                r
            },
            Move::Pass => "pass".to_owned(),
        }
    }
}

/// The decision collaborator: out of scope here beyond its interface.  The
/// dispatcher hands it the time budget (and, for a move, the game state)
/// and encodes whatever it returns.
pub trait AI {
    /// Choose the character to play, within the given time budget (ms).
    fn action_character(&mut self, time: usize) -> ChooseCharacter;

    /// Choose this round's move, within the given time budget (ms).
    fn action_move(&mut self, game: &Game, time: usize) -> Move;
}

/// The trivial decision logic: always the default character, always pass.
pub struct Basic;

impl AI for Basic {
    fn action_character(&mut self, _time: usize) -> ChooseCharacter {
        ChooseCharacter::Bixie
    }

    fn action_move(&mut self, _game: &Game, _time: usize) -> Move {
        Move::Pass
    }
}

/// A line the dispatcher answers with a character choice: `action character
/// <time>`, the time budget numeric.
pub open spec fn spec_is_character_action(line: Seq<char>) -> bool {
    let toks = split_spec(line, ' ');
    toks.len() >= 3 && toks[0] == "action"@ && toks[1] == "character"@ && is_usize_str(toks[2])
}

/// A line the dispatcher answers with a move choice: `action move <time>`,
/// the time budget numeric.
pub open spec fn spec_is_move_action(line: Seq<char>) -> bool {
    let toks = split_spec(line, ' ');
    toks.len() >= 3 && toks[0] == "action"@ && toks[1] == "move"@ && is_usize_str(toks[2])
}

/// Whether a line is handled without error: `settings` and `update` lines
/// must apply cleanly, an `action character`/`action move` line needs a
/// numeric time budget, and every other line — unknown verbs, unknown
/// sub-verbs, too few tokens — is silently ignored.
pub open spec fn spec_line_ok(g: GameV, line: Seq<char>) -> bool {
    let toks = split_spec(line, ' ');
    if toks.len() >= 3 && toks[0] == "settings"@ {
        spec_update_settings(g, toks[1], toks[2]) is Some
    } else if toks.len() >= 4 && toks[0] == "update"@ {
        spec_game_update(g, toks[1], toks[2], toks[3]) is Some
    } else if toks.len() >= 3 && toks[0] == "action"@ && (toks[1] == "character"@ || toks[1]
        == "move"@) {
        is_usize_str(toks[2])
    } else {
        true
    }
}

/// The state a well-formed line leaves behind: `settings` and `update`
/// lines mutate the game as their spec functions say, every other line
/// leaves it alone.
pub open spec fn spec_line_state(g: GameV, line: Seq<char>) -> GameV {
    let toks = split_spec(line, ' ');
    if toks.len() >= 3 && toks[0] == "settings"@ {
        spec_update_settings(g, toks[1], toks[2])->Some_0
    } else if toks.len() >= 4 && toks[0] == "update"@ {
        spec_game_update(g, toks[1], toks[2], toks[3])->Some_0
    } else {
        g
    }
}

/// The error a malformed line draws.
pub open spec fn spec_line_err(g: GameV, line: Seq<char>) -> ProtocolError {
    let toks = split_spec(line, ' ');
    if toks.len() >= 4 && toks[0] == "update"@ {
        spec_game_update_err(g, toks[1], toks[2], toks[3])
    } else {
        ProtocolError::MalformedToken
    }
}

/// Dispatch one input line: split it on single spaces, mutate the game for
/// `settings` and `update` lines, and produce exactly one response line for
/// a well-formed action request — a character line is always `bixie` or
/// `bixiette`, a move line always renders some move.  A malformed line
/// changes nothing and reports why; anything unrecognized is ignored.
pub fn handle_line<A: AI>(game: &mut Game, ai: &mut A, line: &str) -> (r: Result<
    Option<String>,
    ProtocolError,
>)
    ensures
        spec_line_ok(old(game)@, line@) ==> r is Ok && final(game)@ == spec_line_state(
            old(game)@,
            line@,
        ),
        !spec_line_ok(old(game)@, line@) ==> r is Err && r->Err_0 == spec_line_err(
            old(game)@,
            line@,
        ) && final(game)@ == old(game)@,
        r is Ok ==> (r->Ok_0 is Some <==> spec_is_character_action(line@) || spec_is_move_action(
            line@,
        )),
        spec_is_character_action(line@) ==> r is Ok && (r->Ok_0->Some_0@ == "bixie"@
            || r->Ok_0->Some_0@ == "bixiette"@),
        spec_is_move_action(line@) ==> r is Ok && (exists|m: Move|
            r->Ok_0->Some_0@ == spec_move_line(m)),
{
    proof {
        reveal_strlit("settings");
        reveal_strlit("update");
        reveal_strlit("action");
        reveal_strlit("character");
        reveal_strlit("move");
        assert("settings"@.len() == 8 && "update"@.len() == 6 && "action"@.len() == 6);
        assert("update"@[0] == 'u' && "action"@[0] == 'a');
        assert("update"@ != "action"@);
        assert("character"@.len() == 9 && "move"@.len() == 4);
        assert("character"@ != "move"@);
    }
    let toks = split_str(line, ' ');
    let ghost tv = toks.deep_view();
    if toks.len() >= 3 && str_eq(toks[0].as_str(), "settings") {
        assert(tv[0] == "settings"@);
        match game.update_settings(toks[1].as_str(), toks[2].as_str()) {
            Ok(()) => Ok(None),
            Err(e) => Err(e),
        }
    } else if toks.len() >= 4 && str_eq(toks[0].as_str(), "update") {
        assert(tv[0] == "update"@);
        match game.update(toks[1].as_str(), toks[2].as_str(), toks[3].as_str()) {
            Ok(()) => Ok(None),
            Err(e) => Err(e),
        }
    } else if toks.len() >= 3 && str_eq(toks[0].as_str(), "action") {
        assert(tv[0] == "action"@);
        if str_eq(toks[1].as_str(), "character") {
            match parse_usize(toks[2].as_str()) {
                Some(t) => {
                    let c = ai.action_character(t);
                    let out = c.encode();
                    assert(out@ == "bixie"@ || out@ == "bixiette"@);
                    Ok(Some(out))
                },
                None => Err(ProtocolError::MalformedToken),
            }
        } else if str_eq(toks[1].as_str(), "move") {
            match parse_usize(toks[2].as_str()) {
                Some(t) => {
                    let m = ai.action_move(game, t);
                    let out = m.encode();
                    assert(out@ == spec_move_line(m));
                    Ok(Some(out))
                },
                None => Err(ProtocolError::MalformedToken),
            }
        } else {
            Ok(None)
        }
    } else {
        Ok(None)
    }
}

} // verus!
