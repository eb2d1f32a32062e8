//! The field decoder: a flat, comma-separated list of cell tokens becomes a
//! row-major grid of the configured width, together with the derived
//! positions that later lookups want (snippets, the bot's own cell, the
//! opponents' cells).

use crate::cell::cell_has_snippet;
use crate::cell::cell_player_ids;
use crate::cell::parse_cell;
use crate::cell::spec_parse_cell;
use crate::cell::Cell;
use crate::cell::CellType;
use crate::game::Settings;
use crate::split::split_spec;
use crate::split::split_str;
use crate::ProtocolError;
use vstd::prelude::*;
use vstd::string::*;

verus! {

/// The decoded board for one round, replaced wholesale on every field
/// update.
#[derive(Debug)]
pub struct Field {
    /// The grid, row-major, every row exactly the configured width.
    pub cells: Vec<Vec<Cell>>,
    /// The `(row, column)` of every cell holding a code snippet, in flat
    /// index order.
    pub snippets: Vec<(usize, usize)>,
    /// The `(row, column)` of the bot's own occupant cell; `(0, 0)` when the
    /// field shows no such occupant.
    pub me: (usize, usize),
    /// One `(row, column)` entry per opponent occupant facet, in flat index
    /// order.
    pub others: Vec<(usize, usize)>,
}

/// The mathematical value of a [`Field`].
#[verifier::ext_equal]
pub ghost struct FieldV {
    pub grid: Seq<Seq<Seq<CellType>>>,
    pub snippets: Seq<(usize, usize)>,
    pub me: (usize, usize),
    pub others: Seq<(usize, usize)>,
}

impl View for Field {
    type V = FieldV;

    open spec fn view(&self) -> FieldV {
        FieldV {
            grid: self.cells@.map_values(|row: Vec<Cell>| row@.map_values(|c: Cell| c.types@)),
            snippets: self.snippets@,
            me: self.me,
            others: self.others@,
        }
    }
}

impl Default for Field {
    /// The empty field that stands before the first field update.
    fn default() -> (r: Field)
        ensures
            r@ == (FieldV {
                grid: Seq::<Seq<Seq<CellType>>>::empty(),
                snippets: Seq::<(usize, usize)>::empty(),
                me: (0, 0),
                others: Seq::<(usize, usize)>::empty(),
            }),
    {
        let r = Field { cells: Vec::new(), snippets: Vec::new(), me: (0, 0), others: Vec::new() };
        proof {
            assert(r@ =~= (FieldV {
                grid: Seq::<Seq<Seq<CellType>>>::empty(),
                snippets: Seq::<(usize, usize)>::empty(),
                me: (0, 0),
                others: Seq::<(usize, usize)>::empty(),
            }));
        }
        r
    }
}

/// Every cell token of a `,`-separated field string decodes.
pub open spec fn field_tokens_ok(toks: Seq<Seq<char>>) -> bool {
    forall|i: int| 0 <= i < toks.len() ==> spec_parse_cell(#[trigger] toks[i]) is Some
}

/// The flat cell sequence a field string decodes to: split on `,`, decode
/// every cell.  `None` is a malformed field.
pub open spec fn spec_parse_cells(s: Seq<char>) -> Option<Seq<Seq<CellType>>> {
    let toks = split_spec(s, ',');
    if field_tokens_ok(toks) {
        Some(Seq::new(toks.len(), |i: int| spec_parse_cell(toks[i])->Some_0))
    } else {
        None
    }
}

/// The decoded cell count must be a positive multiple of the width; the
/// count of a split is always positive, so only these two can fail.
pub open spec fn dims_ok(count: int, w: int) -> bool {
    w > 0 && count % w == 0
}

/// Flat index to `(row, column)`.
pub open spec fn coords_of(i: int, w: int) -> (usize, usize) {
    ((i / w) as usize, (i % w) as usize)
}

/// The coordinates of every snippet-holding cell, in flat index order.
pub open spec fn spec_snippet_coords(cs: Seq<Seq<CellType>>, w: int) -> Seq<(usize, usize)>
    decreases cs.len(),
{
    if cs.len() == 0 {
        Seq::empty()
    } else {
        spec_snippet_coords(cs.drop_last(), w) + if cell_has_snippet(cs.last()) {
            seq![coords_of(cs.len() - 1, w)]
        } else {
            Seq::empty()
        }
    }
}

/// One copy of `c` per occupant index in `ids` other than `my`.
pub open spec fn coord_per_other(ids: Seq<usize>, my: usize, c: (usize, usize)) -> Seq<
    (usize, usize),
>
    decreases ids.len(),
{
    if ids.len() == 0 {
        Seq::empty()
    } else {
        coord_per_other(ids.drop_last(), my, c) + if ids.last() != my {
            seq![c]
        } else {
            Seq::empty()
        }
    }
}

/// The coordinates of every opponent occupant facet, in flat index order.
pub open spec fn spec_other_coords(cs: Seq<Seq<CellType>>, w: int, my: usize) -> Seq<
    (usize, usize),
>
    decreases cs.len(),
{
    if cs.len() == 0 {
        Seq::empty()
    } else {
        spec_other_coords(cs.drop_last(), w, my) + coord_per_other(
            cell_player_ids(cs.last()),
            my,
            coords_of(cs.len() - 1, w),
        )
    }
}

/// The coordinates of the last cell occupied by the bot itself, or `(0, 0)`
/// when no cell is.
pub open spec fn spec_my_coords(cs: Seq<Seq<CellType>>, w: int, my: usize) -> (usize, usize)
    decreases cs.len(),
{
    if cs.len() == 0 {
        (0, 0)
    } else if cell_player_ids(cs.last()).contains(my) {
        coords_of(cs.len() - 1, w)
    } else {
        spec_my_coords(cs.drop_last(), w, my)
    }
}

/// The flat cells grouped into rows of exactly `w`, in order.
pub open spec fn spec_grid(cs: Seq<Seq<CellType>>, w: int) -> Seq<Seq<Seq<CellType>>>
    recommends
        w > 0,
{
    Seq::new(((cs.len() as int) / w) as nat, |r: int| Seq::new(w as nat, |c: int| cs[r * w + c]))
}

/// Everything a field string decodes to under a given width and own index.
pub open spec fn spec_field(cs: Seq<Seq<CellType>>, w: int, my: usize) -> FieldV {
    FieldV {
        grid: spec_grid(cs, w),
        snippets: spec_snippet_coords(cs, w),
        me: spec_my_coords(cs, w, my),
        others: spec_other_coords(cs, w, my),
    }
}

/// Decode a flat field string against the current settings.  On success the
/// result is exactly [`spec_field`] of the decoded cells; a bad cell token
/// is `MalformedToken`, a cell count that is not a positive multiple of the
/// width is `DimensionMismatch`.
pub fn parse_field(settings: &Settings, field: &str) -> (r: Result<Field, ProtocolError>)
    ensures
        r is Ok <==> (spec_parse_cells(field@) is Some && dims_ok(
            spec_parse_cells(field@)->Some_0.len() as int,
            settings.field_width as int,
        )),
        r is Ok ==> r->Ok_0@ == spec_field(
            spec_parse_cells(field@)->Some_0,
            settings.field_width as int,
            settings.my_bot_id,
        ),
        r is Err ==> r->Err_0 == (if spec_parse_cells(field@) is Some {
            ProtocolError::DimensionMismatch
        } else {
            ProtocolError::MalformedToken
        }),
{
    let toks = split_str(field, ',');
    let ghost tv = toks.deep_view();
    let w = settings.field_width;
    let my = settings.my_bot_id;
    let n = toks.len();
    let ghost pcs = Seq::new(tv.len(), |k: int| spec_parse_cell(tv[k])->Some_0);
    let mut rows: Vec<Vec<Cell>> = Vec::new();
    let mut cur: Vec<Cell> = Vec::new();
    let mut snippets: Vec<(usize, usize)> = Vec::new();
    let mut me: (usize, usize) = (0, 0);
    let mut others: Vec<(usize, usize)> = Vec::new();
    let mut i: usize = 0;
    while i < n
        invariant
            0 <= i <= n,
            n == tv.len(),
            tv == split_spec(field@, ','),
            toks.deep_view() == tv,
            w == settings.field_width,
            my == settings.my_bot_id,
            pcs == Seq::new(tv.len(), |k: int| spec_parse_cell(tv[k])->Some_0),
            forall|k: int| 0 <= k < i ==> spec_parse_cell(#[trigger] tv[k]) is Some,
            w > 0 ==> snippets@ == spec_snippet_coords(pcs.take(i as int), w as int),
            w > 0 ==> me == spec_my_coords(pcs.take(i as int), w as int, my),
            w > 0 ==> others@ == spec_other_coords(pcs.take(i as int), w as int, my),
            w > 0 ==> rows@.len() * w + cur@.len() == i && cur@.len() < w,
            w > 0 ==> forall|rr: int|
                0 <= rr < rows@.len() ==> (#[trigger] rows@[rr])@.len() == w,
            w > 0 ==> forall|rr: int, cc: int|
                0 <= rr < rows@.len() && 0 <= cc < w ==> (#[trigger] rows@[rr]@[cc]).types@
                    == pcs[rr * w + cc],
            w > 0 ==> forall|k: int|
                0 <= k < cur@.len() ==> (#[trigger] cur@[k]).types@ == pcs[
                    rows@.len() * w + k],
        decreases n - i,
    {
        assert(toks@[i as int]@ == tv[i as int]);
        let c = match parse_cell(toks[i].as_str()) {
            Ok(c) => c,
            Err(_) => {
                assert(spec_parse_cell(tv[i as int]) is None);
                assert(!field_tokens_ok(tv));
                return Err(ProtocolError::MalformedToken);
            },
        };
        assert(c.types@ == pcs[i as int]);
        proof {
            assert(pcs.take(i + 1).drop_last() =~= pcs.take(i as int));
            assert(pcs.take(i + 1).last() == pcs[i as int]);
        }
        if w > 0 {
            let coord = (i / w, i % w);
            assert(coord == coords_of(i as int, w as int));
            if c.has_code_snippet() {
                snippets.push(coord);
                assert(snippets@ =~= spec_snippet_coords(pcs.take(i + 1), w as int));
            } else {
                assert(snippets@ =~= spec_snippet_coords(pcs.take(i + 1), w as int));
            }
            let ids = c.player_ids();
            let m = ids.len();
            let mut k: usize = 0;
            while k < m
                invariant
                    0 <= k <= m,
                    m == ids@.len(),
                    ids@ == cell_player_ids(pcs[i as int]),
                    i < n,
                    n == tv.len(),
                    pcs == Seq::new(tv.len(), |kk: int| spec_parse_cell(tv[kk])->Some_0),
                    w == settings.field_width,
                    my == settings.my_bot_id,
                    w > 0,
                    coord == coords_of(i as int, w as int),
                    others@ == spec_other_coords(pcs.take(i as int), w as int, my)
                        + coord_per_other(ids@.take(k as int), my, coord),
                    me == if ids@.take(k as int).contains(my) {
                        coord
                    } else {
                        spec_my_coords(pcs.take(i as int), w as int, my)
                    },
                decreases m - k,
            {
                proof {
                    assert(ids@.take(k + 1).drop_last() =~= ids@.take(k as int));
                    assert(ids@.take(k + 1).last() == ids@[k as int]);
                }
                if ids[k] == my {
                    me = coord;
                    proof {
                        assert(ids@.take(k + 1)[k as int] == my);
                        assert(ids@.take(k + 1).contains(my));
                        assert(others@ =~= spec_other_coords(pcs.take(i as int), w as int, my)
                            + coord_per_other(ids@.take(k + 1), my, coord));
                    }
                } else {
                    others.push(coord);
                    proof {
                        assert(others@ =~= spec_other_coords(pcs.take(i as int), w as int, my)
                            + coord_per_other(ids@.take(k + 1), my, coord));
                        if ids@.take(k + 1).contains(my) {
                            let wit = choose|j: int|
                                0 <= j < k + 1 && #[trigger] ids@.take(k + 1)[j] == my;
                            assert(ids@.take(k as int)[wit] == my);
                            assert(ids@.take(k as int).contains(my));
                        }
                        if ids@.take(k as int).contains(my) {
                            let wit = choose|j: int|
                                0 <= j < k && #[trigger] ids@.take(k as int)[j] == my;
                            assert(ids@.take(k + 1)[wit] == my);
                            assert(ids@.take(k + 1).contains(my));
                        }
                    }
                }
                k = k + 1;
            }
            proof {
                assert(ids@.take(m as int) =~= ids@);
                assert(others@ =~= spec_other_coords(pcs.take(i + 1), w as int, my));
                assert(me == spec_my_coords(pcs.take(i + 1), w as int, my));
            }
            let ghost prev_rows = rows@;
            let ghost prev_cur = cur@;
            cur.push(c);
            if cur.len() == w {
                rows.push(cur);
                cur = Vec::new();
                proof {
                    assert(rows@.len() == prev_rows.len() + 1);
                    assert(rows@.last()@ =~= prev_cur.push(c));
                    assert((prev_rows.len() + 1) * (w as int) == prev_rows.len() * (w as int)
                        + w) by (nonlinear_arith);
                    assert(forall|rr: int, cc: int|
                        0 <= rr < rows@.len() && 0 <= cc < w ==> (#[trigger] rows@[rr]@[cc]).types@
                            == pcs[rr * w + cc]);
                }
            }
        }
        i = i + 1;
    }
    assert(field_tokens_ok(tv));
    assert(spec_parse_cells(field@) == Some(pcs));
    if w == 0 || n % w != 0 {
        return Err(ProtocolError::DimensionMismatch);
    }
    proof {
        assert(pcs.take(n as int) =~= pcs);
        assert(cur@.len() == 0) by (nonlinear_arith)
            requires
                rows@.len() * w + cur@.len() == n,
                0 <= cur@.len() < w,
                (n as int) % (w as int) == 0,
                w > 0,
        ;
        assert(rows@.len() == n as int / w as int) by (nonlinear_arith)
            requires
                rows@.len() * w == n,
                w > 0,
        ;
    }
    let r = Field { cells: rows, snippets, me, others };
    proof {
        assert(forall|rr: int|
            0 <= rr < r@.grid.len() ==> (#[trigger] r@.grid[rr]) =~= Seq::new(
                w as nat,
                |c: int| pcs[rr * (w as int) + c],
            ));
        assert(r@.grid =~~= spec_grid(pcs, w as int));
        assert(r@ =~~= spec_field(pcs, w as int, my));
    }
    Ok(r)
}

} // verus!
