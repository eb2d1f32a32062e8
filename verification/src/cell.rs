//! The cell-type grammar: one compact token per facet of a grid cell, and
//! a whole cell as a `;`-separated list of facet tokens.
//!
//! The fixed-string tokens (`.`, `x`, `S`, `Gl`, `Gr`, `B`, `C`) are matched
//! exactly first; only then does a leading classification character with a
//! decimal suffix apply (`P<n>`, `S<n>`, `E<n>`, `B<n>`).  The order matters
//! because the two rule sets overlap on `S` and `B`.

use crate::num::dec_str;
use crate::num::digits_val;
use crate::num::is_usize_str;
use crate::num::lemma_dec_str_round_trip;
use crate::num::parse_usize;
use crate::num::usize_to_string;
use crate::split::split_spec;
use crate::split::split_str;
use crate::ProtocolError;
use vstd::prelude::*;
use vstd::string::*;

verus! {

/// One facet a grid cell may have.  A single cell can carry several facets
/// at once (terrain, an occupant, a spawn point, ...).
#[derive(Clone, Copy, PartialEq, Eq, Structural, Debug)]
pub enum CellType {
    /// Open ground, token `.`.
    Nothing,
    /// Inaccessible terrain, token `x`.
    Inaccessible,
    /// A player occupant, token `P<id>`.
    Player { id: usize },
    /// A bug spawn point, token `S` (timer 0) or `S<rounds>`.
    BugSpawnPoint { rounds_before_spawn: usize },
    /// The left gate, token `Gl`.
    GateLeft,
    /// The right gate, token `Gr`.
    GateRight,
    /// A bug, token `E<ai-kind>`.
    Bug { ai_type: usize },
    /// A ticking mine, token `B<rounds>`.
    Mine { rounds_before_explode: usize },
    /// A mine lying on the ground, bare token `B`.
    PickUpMine,
    /// A collectible code snippet, token `C`.
    CodeSnippet,
}

/// The grammar of one cell-type token: the exact-match rules first, then the
/// prefix-plus-decimal-suffix rules.  `None` is a malformed token.
pub open spec fn spec_parse_cell_type(t: Seq<char>) -> Option<CellType> {
    if t.len() == 1 && t[0] == '.' {
        Some(CellType::Nothing)
    } else if t.len() == 1 && t[0] == 'x' {
        Some(CellType::Inaccessible)
    } else if t.len() == 1 && t[0] == 'S' {
        Some(CellType::BugSpawnPoint { rounds_before_spawn: 0 })
    } else if t.len() == 2 && t[0] == 'G' && t[1] == 'l' {
        Some(CellType::GateLeft)
    } else if t.len() == 2 && t[0] == 'G' && t[1] == 'r' {
        Some(CellType::GateRight)
    } else if t.len() == 1 && t[0] == 'B' {
        Some(CellType::PickUpMine)
    } else if t.len() == 1 && t[0] == 'C' {
        Some(CellType::CodeSnippet)
    } else if t.len() > 0 && t[0] == 'P' && is_usize_str(t.skip(1)) {
        Some(CellType::Player { id: digits_val(t.skip(1)) as usize })
    } else if t.len() > 0 && t[0] == 'S' && is_usize_str(t.skip(1)) {
        Some(CellType::BugSpawnPoint { rounds_before_spawn: digits_val(t.skip(1)) as usize })
    } else if t.len() > 0 && t[0] == 'E' && is_usize_str(t.skip(1)) {
        Some(CellType::Bug { ai_type: digits_val(t.skip(1)) as usize })
    } else if t.len() > 0 && t[0] == 'B' && is_usize_str(t.skip(1)) {
        Some(CellType::Mine { rounds_before_explode: digits_val(t.skip(1)) as usize })
    } else {
        None
    }
}

/// Decode one cell-type token, exactly as [`spec_parse_cell_type`] reads it.
pub fn parse_cell_type(t: &str) -> (r: Result<CellType, ProtocolError>)
    ensures
        r is Ok <==> spec_parse_cell_type(t@) is Some,
        r is Ok ==> r->Ok_0 == spec_parse_cell_type(t@)->Some_0,
        r is Err ==> r->Err_0 == ProtocolError::MalformedToken,
{
    let n = t.unicode_len();
    if n == 0 {
        return Err(ProtocolError::MalformedToken);
    }
    let c0 = t.get_char(0);
    if n == 1 {
        if c0 == '.' {
            return Ok(CellType::Nothing);
        }
        if c0 == 'x' {
            return Ok(CellType::Inaccessible);
        }
        if c0 == 'S' {
            return Ok(CellType::BugSpawnPoint { rounds_before_spawn: 0 });
        }
        if c0 == 'B' {
            return Ok(CellType::PickUpMine);
        }
        if c0 == 'C' {
            return Ok(CellType::CodeSnippet);
        }
    }
    if n == 2 && c0 == 'G' {
        let c1 = t.get_char(1);
        if c1 == 'l' {
            return Ok(CellType::GateLeft);
        }
        if c1 == 'r' {
            return Ok(CellType::GateRight);
        }
    }
    if c0 == 'P' || c0 == 'S' || c0 == 'E' || c0 == 'B' {
        let suffix = t.substring_char(1, n);
        proof {
            assert(t@.subrange(1, n as int) =~= t@.skip(1));
        }
        match parse_usize(suffix) {
            Some(v) => {
                if c0 == 'P' {
                    Ok(CellType::Player { id: v })
                } else if c0 == 'S' {
                    Ok(CellType::BugSpawnPoint { rounds_before_spawn: v })
                } else if c0 == 'E' {
                    Ok(CellType::Bug { ai_type: v })
                } else {
                    Ok(CellType::Mine { rounds_before_explode: v })
                }
            },
            None => Err(ProtocolError::MalformedToken),
        }
    } else {
        Err(ProtocolError::MalformedToken)
    }
}

/// The token form of one facet.  The bare-token facets render as their fixed
/// string; the payload-carrying facets as their classification character
/// followed by the payload in decimal.
pub open spec fn spec_encode_cell_type(t: CellType) -> Seq<char> {
    match t {
        CellType::Nothing => seq!['.'],
        CellType::Inaccessible => seq!['x'],
        CellType::Player { id } => seq!['P'] + dec_str(id as int),
        CellType::BugSpawnPoint { rounds_before_spawn } => seq!['S'] + dec_str(
            rounds_before_spawn as int,
        ),
        CellType::GateLeft => seq!['G', 'l'],
        CellType::GateRight => seq!['G', 'r'],
        CellType::Bug { ai_type } => seq!['E'] + dec_str(ai_type as int),
        CellType::Mine { rounds_before_explode } => seq!['B'] + dec_str(
            rounds_before_explode as int,
        ),
        CellType::PickUpMine => seq!['B'],
        CellType::CodeSnippet => seq!['C'],
    }
}

impl CellType {
    /// The payload of a [`CellType::Player`] facet, `None` for any other.
    pub open spec fn spec_player_id(self) -> Option<usize> {
        match self {
            CellType::Player { id } => Some(id),
            _ => None,
        }
    }

    /// The occupant index, if this facet is a player occupant.
    pub fn player_id(&self) -> (r: Option<usize>)
        ensures
            r == self.spec_player_id(),
    {
        if let CellType::Player { id } = *self {
            Some(id)
        } else {
            None
        }
    }

    /// Render this facet as its token, exactly [`spec_encode_cell_type`].
    pub fn encode(&self) -> (r: String)
        ensures
            r@ == spec_encode_cell_type(*self),
    {
        proof {
            reveal_strlit(".");
            reveal_strlit("x");
            reveal_strlit("P");
            reveal_strlit("S");
            reveal_strlit("Gl");
            reveal_strlit("Gr");
            reveal_strlit("E");
            reveal_strlit("B");
            reveal_strlit("C");
        }
        match *self {
            CellType::Nothing => {
                let r = ".".to_owned();
                assert(r@ =~= spec_encode_cell_type(*self));
                r
            },
            CellType::Inaccessible => {
                let r = "x".to_owned();
                assert(r@ =~= spec_encode_cell_type(*self));
                r
            },
            CellType::Player { id } => {
                let mut r = "P".to_owned();
                let num = usize_to_string(id);
                r.append(num.as_str());
                assert(r@ =~= spec_encode_cell_type(*self));
                r
            },
            CellType::BugSpawnPoint { rounds_before_spawn } => {
                let mut r = "S".to_owned();
                let num = usize_to_string(rounds_before_spawn);
                r.append(num.as_str());
                assert(r@ =~= spec_encode_cell_type(*self));
                r
            },
            CellType::GateLeft => {
                let r = "Gl".to_owned();
                assert(r@ =~= spec_encode_cell_type(*self));
                r
            },
            CellType::GateRight => {
                let r = "Gr".to_owned();
                assert(r@ =~= spec_encode_cell_type(*self));
                r
            },
            CellType::Bug { ai_type } => {
                let mut r = "E".to_owned();
                let num = usize_to_string(ai_type);
                r.append(num.as_str());
                assert(r@ =~= spec_encode_cell_type(*self));
                r
            },
            CellType::Mine { rounds_before_explode } => {
                let mut r = "B".to_owned();
                let num = usize_to_string(rounds_before_explode);
                r.append(num.as_str());
                assert(r@ =~= spec_encode_cell_type(*self));
                r
            },
            CellType::PickUpMine => {
                let r = "B".to_owned();
                assert(r@ =~= spec_encode_cell_type(*self));
                r
            },
            CellType::CodeSnippet => {
                let r = "C".to_owned();
                assert(r@ =~= spec_encode_cell_type(*self));
                r
            },
        }
    }
}

/// Law: every facet value round-trips through its token form.  In
/// particular a bare `B` stays a pick-up mine and `B<n>` stays a ticking
/// mine, although the two rule sets overlap on `B`.
pub proof fn lemma_cell_type_round_trip(t: CellType)
    ensures
        spec_parse_cell_type(spec_encode_cell_type(t)) == Some(t),
{
    let s = spec_encode_cell_type(t);
    match t {
        CellType::Player { id } => {
            lemma_dec_str_round_trip(id as int);
            assert(s.skip(1) =~= dec_str(id as int));
        },
        CellType::BugSpawnPoint { rounds_before_spawn } => {
            lemma_dec_str_round_trip(rounds_before_spawn as int);
            assert(s.skip(1) =~= dec_str(rounds_before_spawn as int));
        },
        CellType::Bug { ai_type } => {
            lemma_dec_str_round_trip(ai_type as int);
            assert(s.skip(1) =~= dec_str(ai_type as int));
        },
        CellType::Mine { rounds_before_explode } => {
            lemma_dec_str_round_trip(rounds_before_explode as int);
            assert(s.skip(1) =~= dec_str(rounds_before_explode as int));
        },
        _ => {
        },
    }
}

/// Law: each fixed-string token decodes to its payload-free facet, and that
/// facet encodes back to the very same token.
pub proof fn lemma_fixed_tokens_round_trip()
    ensures
        spec_parse_cell_type("."@) == Some(CellType::Nothing),
        spec_encode_cell_type(CellType::Nothing) == "."@,
        spec_parse_cell_type("x"@) == Some(CellType::Inaccessible),
        spec_encode_cell_type(CellType::Inaccessible) == "x"@,
        spec_parse_cell_type("Gl"@) == Some(CellType::GateLeft),
        spec_encode_cell_type(CellType::GateLeft) == "Gl"@,
        spec_parse_cell_type("Gr"@) == Some(CellType::GateRight),
        spec_encode_cell_type(CellType::GateRight) == "Gr"@,
        spec_parse_cell_type("B"@) == Some(CellType::PickUpMine),
        spec_encode_cell_type(CellType::PickUpMine) == "B"@,
        spec_parse_cell_type("C"@) == Some(CellType::CodeSnippet),
        spec_encode_cell_type(CellType::CodeSnippet) == "C"@,
{
    reveal_strlit(".");
    reveal_strlit("x");
    reveal_strlit("Gl");
    reveal_strlit("Gr");
    reveal_strlit("B");
    reveal_strlit("C");
    assert("."@ =~= seq!['.']);
    assert("x"@ =~= seq!['x']);
    assert("Gl"@ =~= seq!['G', 'l']);
    assert("Gr"@ =~= seq!['G', 'r']);
    assert("B"@ =~= seq!['B']);
    assert("C"@ =~= seq!['C']);
}

/// One grid position: the ordered list of facets its cell token listed.
#[derive(Debug)]
pub struct Cell {
    pub types: Vec<CellType>,
}

/// Every facet token of a `;`-separated cell token decodes.
pub open spec fn cell_tokens_ok(toks: Seq<Seq<char>>) -> bool {
    forall|i: int| 0 <= i < toks.len() ==> spec_parse_cell_type(#[trigger] toks[i]) is Some
}

/// The grammar of one whole cell: split on `;`, decode every facet token,
/// keep the facet order.  `None` is a malformed cell.
pub open spec fn spec_parse_cell(s: Seq<char>) -> Option<Seq<CellType>> {
    let toks = split_spec(s, ';');
    if cell_tokens_ok(toks) {
        Some(Seq::new(toks.len(), |i: int| spec_parse_cell_type(toks[i])->Some_0))
    } else {
        None
    }
}

/// Decode one cell token, exactly as [`spec_parse_cell`] reads it.
pub fn parse_cell(cell: &str) -> (r: Result<Cell, ProtocolError>)
    ensures
        r is Ok <==> spec_parse_cell(cell@) is Some,
        r is Ok ==> r->Ok_0.types@ == spec_parse_cell(cell@)->Some_0,
        r is Err ==> r->Err_0 == ProtocolError::MalformedToken,
{
    let toks = split_str(cell, ';');
    let ghost tv = toks.deep_view();
    let mut types: Vec<CellType> = Vec::new();
    let n = toks.len();
    let mut i: usize = 0;
    while i < n
        invariant
            0 <= i <= n,
            n == tv.len(),
            tv == split_spec(cell@, ';'),
            toks.deep_view() == tv,
            types@.len() == i,
            forall|k: int|
                0 <= k < i ==> spec_parse_cell_type(#[trigger] tv[k]) is Some && types@[k]
                    == spec_parse_cell_type(tv[k])->Some_0,
        decreases n - i,
    {
        assert(toks@[i as int]@ == tv[i as int]);
        match parse_cell_type(toks[i].as_str()) {
            Ok(ct) => {
                types.push(ct);
            },
            Err(_) => {
                assert(spec_parse_cell_type(tv[i as int]) is None);
                assert(!cell_tokens_ok(tv));
                return Err(ProtocolError::MalformedToken);
            },
        }
        i = i + 1;
    }
    proof {
        assert(cell_tokens_ok(tv));
        assert(types@ =~= Seq::new(tv.len(), |k: int| spec_parse_cell_type(tv[k])->Some_0));
    }
    Ok(Cell { types })
}

/// Whether a cell with these facets holds a collectible code snippet.
pub open spec fn cell_has_snippet(ts: Seq<CellType>) -> bool {
    exists|j: int| 0 <= j < ts.len() && ts[j] == CellType::CodeSnippet
}

/// The occupant indices listed by these facets, in facet order.
pub open spec fn cell_player_ids(ts: Seq<CellType>) -> Seq<usize>
    decreases ts.len(),
{
    if ts.len() == 0 {
        Seq::empty()
    } else {
        cell_player_ids(ts.drop_last()) + match ts.last() {
            CellType::Player { id } => seq![id],
            _ => Seq::empty(),
        }
    }
}

impl Cell {
    /// Whether any facet of this cell is a collectible code snippet.
    pub fn has_code_snippet(&self) -> (r: bool)
        ensures
            r == cell_has_snippet(self.types@),
    {
        let n = self.types.len();
        let mut j: usize = 0;
        while j < n
            invariant
                0 <= j <= n,
                n == self.types@.len(),
                forall|k: int| 0 <= k < j ==> self.types@[k] != CellType::CodeSnippet,
            decreases n - j,
        {
            if let CellType::CodeSnippet = self.types[j] {
                return true;
            }
            j = j + 1;
        }
        false
    }

    /// The occupant indices of this cell, in facet order.
    pub fn player_ids(&self) -> (r: Vec<usize>)
        ensures
            r@ == cell_player_ids(self.types@),
    {
        let n = self.types.len();
        let mut r: Vec<usize> = Vec::new();
        let mut j: usize = 0;
        while j < n
            invariant
                0 <= j <= n,
                n == self.types@.len(),
                r@ == cell_player_ids(self.types@.take(j as int)),
            decreases n - j,
        {
            proof {
                assert(self.types@.take(j + 1).drop_last() =~= self.types@.take(j as int));
                assert(self.types@.take(j + 1).last() == self.types@[j as int]);
            }
            if let CellType::Player { id } = self.types[j] {
                r.push(id);
                assert(r@ =~= cell_player_ids(self.types@.take(j + 1)));
            } else {
                assert(r@ =~= cell_player_ids(self.types@.take(j + 1)));
            }
            j = j + 1;
        }
        proof {
            assert(self.types@.take(n as int) =~= self.types@);
        }
        r
    }
}

} // verus!
