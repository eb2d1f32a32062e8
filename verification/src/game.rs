//! The mutable game state: the one-time settings, the per-player stats, the
//! round counter and the current field, with the update operations the
//! protocol lines drive.

use crate::field::spec_field;
use crate::field::spec_parse_cells;
use crate::field::dims_ok;
use crate::field::parse_field;
use crate::field::Field;
use crate::field::FieldV;
use crate::num::digits_val;
use crate::num::is_usize_str;
use crate::num::parse_usize;
use crate::split::split_spec;
use crate::split::split_str;
use crate::split::str_eq;
use crate::ProtocolError;
use vstd::prelude::*;
use vstd::string::*;

verus! {

/// The one-time game configuration, announced before play begins.
#[derive(Debug)]
pub struct Settings {
    pub timebank: usize,
    pub time_per_move: usize,
    pub player_names: Vec<String>,
    pub my_bot: String,
    pub my_bot_id: usize,
    pub field_width: usize,
    pub field_height: usize,
    pub max_rounds: usize,
}

/// The mathematical value of a [`Settings`].
#[verifier::ext_equal]
pub ghost struct SettingsV {
    pub timebank: int,
    pub time_per_move: int,
    pub player_names: Seq<Seq<char>>,
    pub my_bot: Seq<char>,
    pub my_bot_id: int,
    pub field_width: int,
    pub field_height: int,
    pub max_rounds: int,
}

impl View for Settings {
    type V = SettingsV;

    open spec fn view(&self) -> SettingsV {
        SettingsV {
            timebank: self.timebank as int,
            time_per_move: self.time_per_move as int,
            player_names: self.player_names.deep_view(),
            my_bot: self.my_bot@,
            my_bot_id: self.my_bot_id as int,
            field_width: self.field_width as int,
            field_height: self.field_height as int,
            max_rounds: self.max_rounds as int,
        }
    }
}

/// What one `settings <key> <value>` line does to the settings.  The numeric
/// keys demand a numeric token (`None`, a malformed line, otherwise);
/// `player_names` splits its value on `,`; an unrecognized key changes
/// nothing, for forward compatibility.
pub open spec fn spec_settings_update(s: SettingsV, key: Seq<char>, value: Seq<char>) -> Option<
    SettingsV,
> {
    if key == "timebank"@ {
        if is_usize_str(value) {
            Some(SettingsV { timebank: digits_val(value), ..s })
        } else {
            None
        }
    } else if key == "time_per_move"@ {
        if is_usize_str(value) {
            Some(SettingsV { time_per_move: digits_val(value), ..s })
        } else {
            None
        }
    } else if key == "player_names"@ {
        Some(SettingsV { player_names: split_spec(value, ','), ..s })
    } else if key == "your_bot"@ {
        Some(SettingsV { my_bot: value, ..s })
    } else if key == "your_botid"@ {
        if is_usize_str(value) {
            Some(SettingsV { my_bot_id: digits_val(value), ..s })
        } else {
            None
        }
    } else if key == "field_width"@ {
        if is_usize_str(value) {
            Some(SettingsV { field_width: digits_val(value), ..s })
        } else {
            None
        }
    } else if key == "field_height"@ {
        if is_usize_str(value) {
            Some(SettingsV { field_height: digits_val(value), ..s })
        } else {
            None
        }
    } else if key == "max_rounds"@ {
        if is_usize_str(value) {
            Some(SettingsV { max_rounds: digits_val(value), ..s })
        } else {
            None
        }
    } else {
        Some(s)
    }
}

impl Settings {
    /// Fresh settings, all zero and empty, the state before any line.
    pub fn new() -> (r: Settings)
        ensures
            r@ == (SettingsV {
                timebank: 0,
                time_per_move: 0,
                player_names: Seq::<Seq<char>>::empty(),
                my_bot: Seq::<char>::empty(),
                my_bot_id: 0,
                field_width: 0,
                field_height: 0,
                max_rounds: 0,
            }),
    {
        let r = Settings {
            timebank: 0,
            time_per_move: 0,
            player_names: Vec::new(),
            my_bot: String::new(),
            my_bot_id: 0,
            field_width: 0,
            field_height: 0,
            max_rounds: 0,
        };
        proof {
            assert(r.player_names.deep_view() =~= Seq::<Seq<char>>::empty());
            assert(r@ =~= (SettingsV {
                timebank: 0,
                time_per_move: 0,
                player_names: Seq::<Seq<char>>::empty(),
                my_bot: Seq::<char>::empty(),
                my_bot_id: 0,
                field_width: 0,
                field_height: 0,
                max_rounds: 0,
            }));
        }
        r
    }

    /// Apply one `settings` line, exactly as [`spec_settings_update`] says;
    /// a malformed numeric value leaves the settings untouched.
    pub fn update(&mut self, key: &str, value: &str) -> (r: Result<(), ProtocolError>)
        ensures
            spec_settings_update(old(self)@, key@, value@) is Some ==> r is Ok && final(self)@
                == spec_settings_update(old(self)@, key@, value@)->Some_0,
            spec_settings_update(old(self)@, key@, value@) is None ==> r is Err && r->Err_0
                == ProtocolError::MalformedToken && final(self)@ == old(self)@,
    {
        if str_eq(key, "timebank") {
            match parse_usize(value) {
                Some(v) => {
                    self.timebank = v;
                    assert(self@ =~= spec_settings_update(old(self)@, key@, value@)->Some_0);
                    Ok(())
                },
                None => Err(ProtocolError::MalformedToken),
            }
        } else if str_eq(key, "time_per_move") {
            match parse_usize(value) {
                Some(v) => {
                    self.time_per_move = v;
                    assert(self@ =~= spec_settings_update(old(self)@, key@, value@)->Some_0);
                    Ok(())
                },
                None => Err(ProtocolError::MalformedToken),
            }
        } else if str_eq(key, "player_names") {
            self.player_names = split_str(value, ',');
            assert(self@ =~= spec_settings_update(old(self)@, key@, value@)->Some_0);
            Ok(())
        } else if str_eq(key, "your_bot") {
            self.my_bot = value.to_owned();
            assert(self@ =~= spec_settings_update(old(self)@, key@, value@)->Some_0);
            Ok(())
        } else if str_eq(key, "your_botid") {
            match parse_usize(value) {
                Some(v) => {
                    self.my_bot_id = v;
                    assert(self@ =~= spec_settings_update(old(self)@, key@, value@)->Some_0);
                    Ok(())
                },
                None => Err(ProtocolError::MalformedToken),
            }
        } else if str_eq(key, "field_width") {
            match parse_usize(value) {
                Some(v) => {
                    self.field_width = v;
                    assert(self@ =~= spec_settings_update(old(self)@, key@, value@)->Some_0);
                    Ok(())
                },
                None => Err(ProtocolError::MalformedToken),
            }
        } else if str_eq(key, "field_height") {
            match parse_usize(value) {
                Some(v) => {
                    self.field_height = v;
                    assert(self@ =~= spec_settings_update(old(self)@, key@, value@)->Some_0);
                    Ok(())
                },
                None => Err(ProtocolError::MalformedToken),
            }
        } else if str_eq(key, "max_rounds") {
            match parse_usize(value) {
                Some(v) => {
                    self.max_rounds = v;
                    assert(self@ =~= spec_settings_update(old(self)@, key@, value@)->Some_0);
                    Ok(())
                },
                None => Err(ProtocolError::MalformedToken),
            }
        } else {
            assert(self@ =~= spec_settings_update(old(self)@, key@, value@)->Some_0);
            Ok(())
        }
    }

    /// Turn a flat cell index into `(row, column)` for this field width.
    pub fn index_to_coords(&self, index: usize) -> (r: (usize, usize))
        requires
            self.field_width > 0,
        ensures
            r.0 == index as int / self@.field_width,
            r.1 == index as int % self@.field_width,
    {
        (index / self.field_width, index % self.field_width)
    }
}

/// The per-player stats the update lines maintain.
#[derive(Clone, Copy, PartialEq, Eq, Structural, Debug)]
pub struct Player {
    pub snippets: usize,
    pub bombs: usize,
}

/// What one per-player update line does to a player's stats: `snippets` and
/// `bombs` each set their counter, any other key changes nothing.
pub open spec fn spec_player_update(p: Player, key: Seq<char>, value: usize) -> Player {
    if key == "snippets"@ {
        Player { snippets: value, ..p }
    } else if key == "bombs"@ {
        Player { bombs: value, ..p }
    } else {
        p
    }
}

impl Player {
    /// A player that has collected and dropped nothing yet.
    pub fn new() -> (r: Player)
        ensures
            r == (Player { snippets: 0, bombs: 0 }),
    {
        Player { snippets: 0, bombs: 0 }
    }

    /// Apply one stat update, exactly as [`spec_player_update`] says.
    pub fn update(&mut self, key: &str, value: usize)
        ensures
            *final(self) == spec_player_update(*old(self), key@, value),
    {
        if str_eq(key, "snippets") {
            self.snippets = value;
        } else if str_eq(key, "bombs") {
            self.bombs = value;
        }
    }
}

} // verus!

verus! {

/// The map a player list stands for: the first entry under a name wins, so
/// a lookup may scan from the front.
pub open spec fn players_map(s: Seq<(String, Player)>) -> Map<Seq<char>, Player>
    decreases s.len(),
{
    if s.len() == 0 {
        Map::empty()
    } else {
        players_map(s.skip(1)).insert(s[0].0@, s[0].1)
    }
}

proof fn lemma_players_map_absent_push(s: Seq<(String, Player)>, name: String, p: Player)
    requires
        forall|k: int| 0 <= k < s.len() ==> (#[trigger] s[k]).0@ != name@,
    ensures
        players_map(s.push((name, p))) == players_map(s).insert(name@, p),
    decreases s.len(),
{
    let t = s.push((name, p));
    if s.len() == 0 {
        assert(t.skip(1) =~= Seq::<(String, Player)>::empty());
        assert(t[0] == (name, p));
        assert(players_map(t) == players_map(t.skip(1)).insert(t[0].0@, t[0].1));
        assert(players_map(t) =~= players_map(s).insert(name@, p));
    } else {
        assert(t.skip(1) =~= s.skip(1).push((name, p)));
        assert(t[0] == s[0]);
        assert(forall|k: int|
            0 <= k < s.skip(1).len() ==> (#[trigger] s.skip(1)[k]) == s[k + 1]);
        lemma_players_map_absent_push(s.skip(1), name, p);
        assert(players_map(t) == players_map(s.skip(1).push((name, p))).insert(s[0].0@, s[0].1));
        assert(players_map(s.skip(1)).insert(name@, p).insert(s[0].0@, s[0].1)
            =~= players_map(s.skip(1)).insert(s[0].0@, s[0].1).insert(name@, p));
        assert(players_map(t) =~= players_map(s).insert(name@, p));
    }
}

proof fn lemma_players_map_set_first(s: Seq<(String, Player)>, i: int, e: (String, Player))
    requires
        0 <= i < s.len(),
        forall|k: int| 0 <= k < i ==> (#[trigger] s[k]).0@ != s[i].0@,
        e.0@ == s[i].0@,
    ensures
        players_map(s.update(i, e)) == players_map(s).insert(s[i].0@, e.1),
    decreases i,
{
    if i == 0 {
        assert(s.update(0, e).skip(1) =~= s.skip(1));
        assert(s.update(0, e)[0] == e);
        assert(players_map(s.skip(1)).insert(e.0@, e.1) =~= players_map(s.skip(1)).insert(
            s[0].0@,
            s[0].1,
        ).insert(s[0].0@, e.1));
    } else {
        assert(s.update(i, e).skip(1) =~= s.skip(1).update(i - 1, e));
        assert(forall|k: int|
            0 <= k < s.skip(1).len() ==> (#[trigger] s.skip(1)[k]) == s[k + 1]);
        lemma_players_map_set_first(s.skip(1), i - 1, e);
        assert(s[0].0@ != s[i].0@);
        assert(players_map(s.skip(1)).insert(s[i].0@, e.1).insert(s[0].0@, s[0].1)
            =~= players_map(s.skip(1)).insert(s[0].0@, s[0].1).insert(s[i].0@, e.1));
    }
}

proof fn lemma_players_map_first(s: Seq<(String, Player)>, i: int, name: Seq<char>)
    requires
        0 <= i < s.len(),
        s[i].0@ == name,
        forall|k: int| 0 <= k < i ==> (#[trigger] s[k]).0@ != name,
    ensures
        players_map(s).contains_key(name),
        players_map(s)[name] == s[i].1,
    decreases i,
{
    if i == 0 {
    } else {
        assert(forall|k: int|
            0 <= k < s.skip(1).len() ==> (#[trigger] s.skip(1)[k]) == s[k + 1]);
        lemma_players_map_first(s.skip(1), i - 1, name);
        assert(s[0].0@ != name);
    }
}

proof fn lemma_players_map_absent(s: Seq<(String, Player)>, name: Seq<char>)
    requires
        forall|k: int| 0 <= k < s.len() ==> (#[trigger] s[k]).0@ != name,
    ensures
        !players_map(s).contains_key(name),
    decreases s.len(),
{
    if s.len() > 0 {
        assert(forall|k: int|
            0 <= k < s.skip(1).len() ==> (#[trigger] s.skip(1)[k]) == s[k + 1]);
        lemma_players_map_absent(s.skip(1), name);
        assert(s[0].0@ != name);
    }
}

/// Put `p` under `name`: replace the first entry of that name, or append a
/// new one.
fn set_entry(players: &mut Vec<(String, Player)>, name: &str, p: Player)
    ensures
        players_map(final(players)@) == players_map(old(players)@).insert(name@, p),
{
    let n = players.len();
    let mut i: usize = 0;
    while i < n
        invariant
            0 <= i <= n,
            n == players@.len(),
            players@ == old(players)@,
            forall|k: int| 0 <= k < i ==> (#[trigger] players@[k]).0@ != name@,
        decreases n - i,
    {
        if str_eq(players[i].0.as_str(), name) {
            let ghost prev = players@;
            let entry = &mut players[i];
            entry.1 = p;
            proof {
                assert(players@ == prev.update(i as int, (prev[i as int].0, p)));
                lemma_players_map_set_first(prev, i as int, (prev[i as int].0, p));
            }
            return ;
        }
        i = i + 1;
    }
    let ghost prev = players@;
    players.push((name.to_owned(), p));
    proof {
        let e = players@.last();
        assert(players@ =~= prev.push(e));
        lemma_players_map_absent_push(prev, e.0, p);
    }
}

} // verus!

verus! {

/// The root aggregate: settings, round counter, current field, and the
/// per-player stats, exactly one instance per game.
#[derive(Debug)]
pub struct Game {
    pub settings: Settings,
    pub round: usize,
    pub field: Field,
    players: Vec<(String, Player)>,
}

/// The mathematical value of a [`Game`].
#[verifier::ext_equal]
pub ghost struct GameV {
    pub settings: SettingsV,
    pub round: int,
    pub field: FieldV,
    pub players: Map<Seq<char>, Player>,
}

impl View for Game {
    type V = GameV;

    closed spec fn view(&self) -> GameV {
        GameV {
            settings: self.settings@,
            round: self.round as int,
            field: self.field@,
            players: players_map(self.players@),
        }
    }
}

/// Fresh player entries, one per listed name in order, zero-valued stats —
/// also for a name that already had an entry (a quirk the protocol keeps:
/// repeating `player_names` resets every listed player).
pub open spec fn with_default_players(
    m: Map<Seq<char>, Player>,
    names: Seq<Seq<char>>,
) -> Map<Seq<char>, Player>
    decreases names.len(),
{
    if names.len() == 0 {
        m
    } else {
        with_default_players(m, names.drop_last()).insert(
            names.last(),
            Player { snippets: 0, bombs: 0 },
        )
    }
}

/// What one `settings` line does to the whole game: the settings change as
/// [`spec_settings_update`] says, and every name then listed gets a fresh
/// zero-valued player entry.
pub open spec fn spec_update_settings(g: GameV, key: Seq<char>, value: Seq<char>) -> Option<
    GameV,
> {
    match spec_settings_update(g.settings, key, value) {
        Some(s) => Some(
            GameV { settings: s, players: with_default_players(g.players, s.player_names), ..g },
        ),
        None => None,
    }
}

/// What one `update <scope> <key> <value>` line does to the whole game.
/// Under the `game` scope, `round` replaces the round counter and `field`
/// replaces the field wholesale; any other key is ignored.  Any other scope
/// is a player identifier whose stats change as [`spec_player_update`] says,
/// the entry created zero-valued on first reference.  `None` is a malformed
/// line that must leave the game untouched.
pub open spec fn spec_game_update(
    g: GameV,
    scope: Seq<char>,
    key: Seq<char>,
    value: Seq<char>,
) -> Option<GameV> {
    if scope == "game"@ {
        if key == "round"@ {
            if is_usize_str(value) {
                Some(GameV { round: digits_val(value), ..g })
            } else {
                None
            }
        } else if key == "field"@ {
            match spec_parse_cells(value) {
                Some(cs) => if dims_ok(cs.len() as int, g.settings.field_width) {
                    Some(
                        GameV {
                            field: spec_field(
                                cs,
                                g.settings.field_width,
                                g.settings.my_bot_id as usize,
                            ),
                            ..g
                        },
                    )
                } else {
                    None
                },
                None => None,
            }
        } else {
            Some(g)
        }
    } else {
        if is_usize_str(value) {
            let prev = if g.players.contains_key(scope) {
                g.players[scope]
            } else {
                Player { snippets: 0, bombs: 0 }
            };
            Some(
                GameV {
                    players: g.players.insert(
                        scope,
                        spec_player_update(prev, key, digits_val(value) as usize),
                    ),
                    ..g
                },
            )
        } else {
            None
        }
    }
}

/// The error a malformed `update` line draws: a field string of the wrong
/// cell count is a dimension mismatch, everything else a malformed token.
pub open spec fn spec_game_update_err(
    g: GameV,
    scope: Seq<char>,
    key: Seq<char>,
    value: Seq<char>,
) -> ProtocolError {
    if scope == "game"@ && key == "field"@ && spec_parse_cells(value) is Some {
        ProtocolError::DimensionMismatch
    } else {
        ProtocolError::MalformedToken
    }
}

impl Game {
    /// The all-default game that stands before the first line is read.
    pub fn new() -> (r: Game)
        ensures
            r@ == (GameV {
                settings: SettingsV {
                    timebank: 0,
                    time_per_move: 0,
                    player_names: Seq::<Seq<char>>::empty(),
                    my_bot: Seq::<char>::empty(),
                    my_bot_id: 0,
                    field_width: 0,
                    field_height: 0,
                    max_rounds: 0,
                },
                round: 0,
                field: FieldV {
                    grid: Seq::<Seq<Seq<crate::cell::CellType>>>::empty(),
                    snippets: Seq::<(usize, usize)>::empty(),
                    me: (0, 0),
                    others: Seq::<(usize, usize)>::empty(),
                },
                players: Map::<Seq<char>, Player>::empty(),
            }),
    {
        let r = Game {
            settings: Settings::new(),
            round: 0,
            field: Field::default(),
            players: Vec::new(),
        };
        proof {
            assert(r@ =~~= (GameV {
                settings: r.settings@,
                round: 0,
                field: r.field@,
                players: Map::<Seq<char>, Player>::empty(),
            }));
        }
        r
    }

    /// The stats of the player of that name, if one has been referenced.
    pub fn get_player(&self, name: &str) -> (r: Option<Player>)
        ensures
            r == if self@.players.contains_key(name@) {
                Some(self@.players[name@])
            } else {
                Option::<Player>::None
            },
    {
        let n = self.players.len();
        let mut i: usize = 0;
        while i < n
            invariant
                0 <= i <= n,
                n == self.players@.len(),
                forall|k: int| 0 <= k < i ==> (#[trigger] self.players@[k]).0@ != name@,
            decreases n - i,
        {
            if str_eq(self.players[i].0.as_str(), name) {
                proof {
                    lemma_players_map_first(self.players@, i as int, name@);
                }
                return Some(self.players[i].1);
            }
            i = i + 1;
        }
        proof {
            lemma_players_map_absent(self.players@, name@);
        }
        None
    }

    /// Apply one `settings` line, exactly as [`spec_update_settings`] says;
    /// a malformed line leaves the game untouched.
    pub fn update_settings(&mut self, key: &str, value: &str) -> (r: Result<(), ProtocolError>)
        ensures
            spec_update_settings(old(self)@, key@, value@) is Some ==> r is Ok && final(self)@
                == spec_update_settings(old(self)@, key@, value@)->Some_0,
            spec_update_settings(old(self)@, key@, value@) is None ==> r is Err && r->Err_0
                == ProtocolError::MalformedToken && final(self)@ == old(self)@,
    {
        match self.settings.update(key, value) {
            Ok(()) => {},
            Err(e) => {
                return Err(e);
            },
        }
        let ghost names = self.settings@.player_names;
        let n = self.settings.player_names.len();
        let mut i: usize = 0;
        while i < n
            invariant
                0 <= i <= n,
                n == names.len(),
                self.settings@ == spec_settings_update(old(self)@.settings, key@, value@)->Some_0,
                names == self.settings@.player_names,
                self.round == old(self).round,
                self.field == old(self).field,
                players_map(self.players@) == with_default_players(
                    players_map(old(self).players@),
                    names.take(i as int),
                ),
            decreases n - i,
        {
            proof {
                assert(names.take(i + 1).drop_last() =~= names.take(i as int));
                assert(names.take(i + 1).last() == names[i as int]);
                assert(self.settings.player_names@[i as int]@ == names[i as int]);
            }
            let name = &self.settings.player_names[i];
            set_entry(&mut self.players, name.as_str(), Player::new());
            i = i + 1;
        }
        proof {
            assert(names.take(n as int) =~= names);
            assert(self@ =~~= spec_update_settings(old(self)@, key@, value@)->Some_0);
        }
        Ok(())
    }

    /// Apply one `update` line, exactly as [`spec_game_update`] says; a
    /// malformed line leaves the game untouched and draws
    /// [`spec_game_update_err`].
    pub fn update(&mut self, update_type: &str, key: &str, value: &str) -> (r: Result<
        (),
        ProtocolError,
    >)
        ensures
            spec_game_update(old(self)@, update_type@, key@, value@) is Some ==> r is Ok
                && final(self)@ == spec_game_update(old(self)@, update_type@, key@, value@)->Some_0,
            spec_game_update(old(self)@, update_type@, key@, value@) is None ==> r is Err
                && r->Err_0 == spec_game_update_err(old(self)@, update_type@, key@, value@)
                && final(self)@ == old(self)@,
    {
        proof {
            reveal_strlit("round");
            reveal_strlit("field");
            assert("round"@[0] == 'r' && "field"@[0] == 'f');
            assert("round"@ != "field"@);
        }
        if str_eq(update_type, "game") {
            if str_eq(key, "round") {
                match parse_usize(value) {
                    Some(v) => {
                        self.round = v;
                        assert(self@ =~~= spec_game_update(
                            old(self)@,
                            update_type@,
                            key@,
                            value@,
                        )->Some_0);
                        Ok(())
                    },
                    None => Err(ProtocolError::MalformedToken),
                }
            } else if str_eq(key, "field") {
                match parse_field(&self.settings, value) {
                    Ok(f) => {
                        self.field = f;
                        assert(self@ =~~= spec_game_update(
                            old(self)@,
                            update_type@,
                            key@,
                            value@,
                        )->Some_0);
                        Ok(())
                    },
                    Err(e) => Err(e),
                }
            } else {
                Ok(())
            }
        } else {
            match parse_usize(value) {
                Some(v) => {
                    let prev = match self.get_player(update_type) {
                        Some(p) => p,
                        None => Player::new(),
                    };
                    let mut p = prev;
                    p.update(key, v);
                    set_entry(&mut self.players, update_type, p);
                    assert(self@ =~~= spec_game_update(
                        old(self)@,
                        update_type@,
                        key@,
                        value@,
                    )->Some_0);
                    Ok(())
                },
                None => Err(ProtocolError::MalformedToken),
            }
        }
    }
}

/// Law: a field update is idempotent — applying the same well-formed
/// `update game field` line twice in a row leaves exactly the field the
/// first application produced, because decoding depends only on the line
/// and the settings, which the update does not touch.
pub proof fn lemma_field_update_idempotent(g: GameV, value: Seq<char>)
    requires
        spec_game_update(g, "game"@, "field"@, value) is Some,
    ensures
        ({
            let g1 = spec_game_update(g, "game"@, "field"@, value)->Some_0;
            &&& spec_game_update(g1, "game"@, "field"@, value) is Some
            &&& spec_game_update(g1, "game"@, "field"@, value)->Some_0.field == g1.field
            &&& spec_game_update(g1, "game"@, "field"@, value)->Some_0 == g1
        }),
{
    reveal_strlit("game");
    reveal_strlit("round");
    reveal_strlit("field");
    let g1 = spec_game_update(g, "game"@, "field"@, value)->Some_0;
    assert(g1.settings == g.settings);
    assert("field"@ != "round"@) by {
        assert("field"@.len() == 5);
        assert("round"@.len() == 5);
        assert("field"@[0] == 'f');
        assert("round"@[0] == 'r');
    }
    let g2 = spec_game_update(g1, "game"@, "field"@, value)->Some_0;
    assert(g2.field == g1.field);
    assert(g2 =~~= g1);
}

} // verus!
