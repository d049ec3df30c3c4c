//! The normalizer: total-table-wide operations that flatten a parsed
//! battle-log table into the flat snapshot schema. Exploding the two
//! per-side list columns, renaming struct fields positionally,
//! unnesting struct columns, and deriving the match outcome.

use vstd::prelude::*;

use crate::value::JVal;
use crate::value::JsonValue;
use crate::value::jview;
use crate::value::jview_list;
use crate::value::jview_fields;
use crate::value::lemma_jview_list;
use crate::value::lemma_jview_fields;
use crate::value::compare_bytes;
use crate::value::clone_bytes;
use crate::value::value_clone;
use crate::table::Table;
use crate::table::TableV;
use crate::table::names_view;
use crate::table::rows_view;
use crate::table::first_idx;
use crate::table::lemma_first_idx;
use crate::table::find_col;
use crate::table::distinct;
use crate::table::lemma_first_idx_unique;
use crate::names::s_team;
use crate::names::s_opponent;
use crate::names::s_arena;
use crate::names::s_game_mode;
use crate::names::s_arena_id;
use crate::names::s_arena_name;
use crate::names::s_gamemode_id;
use crate::names::s_gamemode_name;
use crate::names::s_team_tag;
use crate::names::s_team_name;
use crate::names::s_team_starting_trophies;
use crate::names::s_team_trophy_change;
use crate::names::s_team_crowns;
use crate::names::s_team_king_tower_hit_points;
use crate::names::s_team_princess_tower_hit_points;
use crate::names::s_team_clan;
use crate::names::s_team_cards;
use crate::names::s_opponent_tag;
use crate::names::s_opponent_name;
use crate::names::s_opponent_starting_trophies;
use crate::names::s_opponent_trophy_change;
use crate::names::s_opponent_crowns;
use crate::names::s_opponent_king_tower_hit_points;
use crate::names::s_opponent_princess_tower_hit_points;
use crate::names::s_opponent_clan;
use crate::names::s_opponent_cards;
use crate::names::s_team_clan_tag;
use crate::names::s_team_clan_name;
use crate::names::s_team_clan_badge_id;
use crate::names::s_opponent_clan_tag;
use crate::names::s_opponent_clan_name;
use crate::names::s_opponent_clan_badge_id;
use crate::names::s_winner;
use crate::names::name_team;
use crate::names::name_opponent;
use crate::names::name_arena;
use crate::names::name_game_mode;
use crate::names::name_arena_id;
use crate::names::name_arena_name;
use crate::names::name_gamemode_id;
use crate::names::name_gamemode_name;
use crate::names::name_team_tag;
use crate::names::name_team_name;
use crate::names::name_team_starting_trophies;
use crate::names::name_team_trophy_change;
use crate::names::name_team_crowns;
use crate::names::name_team_king_tower_hit_points;
use crate::names::name_team_princess_tower_hit_points;
use crate::names::name_team_clan;
use crate::names::name_team_cards;
use crate::names::name_opponent_tag;
use crate::names::name_opponent_name;
use crate::names::name_opponent_starting_trophies;
use crate::names::name_opponent_trophy_change;
use crate::names::name_opponent_crowns;
use crate::names::name_opponent_king_tower_hit_points;
use crate::names::name_opponent_princess_tower_hit_points;
use crate::names::name_opponent_clan;
use crate::names::name_opponent_cards;
use crate::names::name_team_clan_tag;
use crate::names::name_team_clan_name;
use crate::names::name_team_clan_badge_id;
use crate::names::name_opponent_clan_tag;
use crate::names::name_opponent_clan_name;
use crate::names::name_opponent_clan_badge_id;
use crate::names::name_winner;
use crate::PipelineError;

verus! {

/// Length of a list cell; zero when the cell is not a list.
pub open spec fn list_len(c: JVal) -> int {
    if c is Arr {
        c->Arr_0.len() as int
    } else {
        0
    }
}

/// How many output rows one match fans out to when its two side lists
/// have the given cells: the longer list's length, at least one.
pub open spec fn fanout(ca: JVal, cb: JVal) -> int {
    let m = if list_len(ca) >= list_len(cb) {
        list_len(ca)
    } else {
        list_len(cb)
    };
    if m >= 1 {
        m
    } else {
        1
    }
}

/// Element `s` of a list cell, or null past its end.
pub open spec fn elem_at(c: JVal, s: int) -> JVal {
    if c is Arr && 0 <= s < c->Arr_0.len() {
        c->Arr_0[s]
    } else {
        JVal::Null
    }
}

/// One output row of the explode step: the input row with the two list
/// cells replaced by their elements in slot `s`.
pub open spec fn exploded_row(row: Seq<JVal>, ai: int, bi: int, s: int) -> Seq<JVal> {
    row.update(ai, elem_at(row[ai], s)).update(bi, elem_at(row[bi], s))
}

/// The group of output rows one input row fans out to.
pub open spec fn row_group(row: Seq<JVal>, ai: int, bi: int) -> Seq<Seq<JVal>> {
    Seq::new(fanout(row[ai], row[bi]) as nat, |s: int| exploded_row(row, ai, bi, s))
}

/// All output rows of the explode step, group by group, in order.
pub open spec fn explode_rows(rows: Seq<Seq<JVal>>, ai: int, bi: int) -> Seq<Seq<JVal>>
    decreases rows.len(),
{
    if rows.len() == 0 {
        Seq::empty()
    } else {
        explode_rows(rows.drop_last(), ai, bi) + row_group(rows.last(), ai, bi)
    }
}

/// Total number of output rows of the explode step.
pub open spec fn total_fanout(rows: Seq<Seq<JVal>>, ai: int, bi: int) -> int
    decreases rows.len(),
{
    if rows.len() == 0 {
        0
    } else {
        total_fanout(rows.drop_last(), ai, bi) + fanout(rows.last()[ai], rows.last()[bi])
    }
}

/// The explode step emits exactly `total_fanout` rows.
pub proof fn lemma_explode_len(rows: Seq<Seq<JVal>>, ai: int, bi: int)
    ensures
        explode_rows(rows, ai, bi).len() == total_fanout(rows, ai, bi),
    decreases rows.len(),
{
    if rows.len() != 0 {
        lemma_explode_len(rows.drop_last(), ai, bi);
    }
}

/// A cell a list column may hold: a list, or null.
pub open spec fn cell_is_listlike(c: JVal) -> bool {
    c is Arr || c is Null
}

/// When the explode step succeeds: both columns exist and every cell of
/// both is a list or null.
pub open spec fn explode_ok(tv: TableV, a: Seq<u8>, b: Seq<u8>) -> bool {
    let ai = first_idx(tv.cols, a);
    let bi = first_idx(tv.cols, b);
    &&& ai != -1
    &&& bi != -1
    &&& forall|i: int|
        0 <= i < tv.rows.len() ==> cell_is_listlike(#[trigger] tv.rows[i][ai]) && cell_is_listlike(
            tv.rows[i][bi],
        )
}

/// What the explode step returns.
pub open spec fn explode_spec(tv: TableV, a: Seq<u8>, b: Seq<u8>) -> TableV {
    let ai = first_idx(tv.cols, a);
    let bi = first_idx(tv.cols, b);
    TableV { cols: tv.cols, rows: explode_rows(tv.rows, ai, bi) }
}

/// Copy of element `s` of a list cell, or null past its end.
pub fn elem_clone(c: &JsonValue, s: usize) -> (r: JsonValue)
    ensures
        r@ == elem_at(c@, s as int),
{
    match c {
        JsonValue::Arr(xs) => {
            proof {
                lemma_jview_list(xs@);
            }
            if s < xs.len() {
                value_clone(&xs[s])
            } else {
                JsonValue::Null
            }
        },
        _ => JsonValue::Null,
    }
}

/// Explodes the two side columns: one input row with side lists of
/// length k and m fans out to max(k, m) rows (at least one), the two
/// list cells replaced by their slot elements, null past a list's end.
pub fn explode_two(t: &Table, a: &Vec<u8>, b: &Vec<u8>) -> (r: Result<Table, PipelineError>)
    requires
        t@.wf(),
    ensures
        r is Ok <==> explode_ok(t@, a@, b@),
        r matches Ok(out) ==> out@ == explode_spec(t@, a@, b@) && out@.wf(),
        r matches Err(e) ==> e is SchemaMismatch,
{
    let ai = match find_col(&t.cols, a) {
        Some(i) => i,
        None => {
            return Err(PipelineError::SchemaMismatch { column: clone_bytes(a) });
        },
    };
    let bi = match find_col(&t.cols, b) {
        Some(i) => i,
        None => {
            return Err(PipelineError::SchemaMismatch { column: clone_bytes(b) });
        },
    };
    let ghost rowsv = t@.rows;
    let n = t.rows.len();
    let ncols = t.cols.len();
    proof {
        lemma_first_idx(t@.cols, a@);
        lemma_first_idx(t@.cols, b@);
    }

    // every cell of both columns must be a list or null
    for i in 0..n
        invariant
            n == t.rows.len(),
            rowsv == t@.rows,
            rowsv.len() == n,
            t@.wf(),
            ncols == t.cols.len(),
            ai == first_idx(t@.cols, a@) && ai < ncols,
            bi == first_idx(t@.cols, b@) && bi < ncols,
            forall|k: int|
                0 <= k < i ==> cell_is_listlike(#[trigger] rowsv[k][ai as int])
                    && cell_is_listlike(rowsv[k][bi as int]),
    {
        proof {
            lemma_jview_list(t.rows@[i as int]@);
            assert(rowsv[i as int].len() == ncols);
        }
        let row = &t.rows[i];
        let ok_a = matches!(&row[ai], JsonValue::Arr(_)) || matches!(&row[ai], JsonValue::Null);
        if !ok_a {
            proof {
                assert(!cell_is_listlike(rowsv[i as int][ai as int]));
            }
            return Err(PipelineError::SchemaMismatch { column: clone_bytes(a) });
        }
        let ok_b = matches!(&row[bi], JsonValue::Arr(_)) || matches!(&row[bi], JsonValue::Null);
        if !ok_b {
            proof {
                assert(!cell_is_listlike(rowsv[i as int][bi as int]));
            }
            return Err(PipelineError::SchemaMismatch { column: clone_bytes(b) });
        }
    }
    assert(explode_ok(t@, a@, b@));

    // build the exploded rows, group by group
    let mut out_rows: Vec<Vec<JsonValue>> = Vec::new();
    for i in 0..n
        invariant
            n == t.rows.len(),
            rowsv == t@.rows,
            rowsv.len() == n,
            t@.wf(),
            ncols == t.cols.len(),
            ai == first_idx(t@.cols, a@) && ai < ncols,
            bi == first_idx(t@.cols, b@) && bi < ncols,
            rows_view(out_rows@) == explode_rows(rowsv.take(i as int), ai as int, bi as int),
    {
        proof {
            lemma_jview_list(t.rows@[i as int]@);
            assert(rowsv[i as int].len() == ncols);
        }
        let row = &t.rows[i];
        let ghost rv = rowsv[i as int];
        let ka: usize = match &row[ai] {
            JsonValue::Arr(xs) => xs.len(),
            _ => 0,
        };
        let kb: usize = match &row[bi] {
            JsonValue::Arr(xs) => xs.len(),
            _ => 0,
        };
        proof {
            lemma_jview_list(row@);
            if row@[ai as int] is Arr {
                lemma_jview_list(row@[ai as int]->Arr_0@);
            }
        }
        let fan0: usize = if ka >= kb {
            ka
        } else {
            kb
        };
        let fan: usize = if fan0 >= 1 {
            fan0
        } else {
            1
        };
        proof {
            assert(list_len(rv[ai as int]) == ka as int) by {
                if row@[ai as int] is Arr {
                    lemma_jview_list(row@[ai as int]->Arr_0@);
                }
                assert(rv[ai as int] == jview(row@[ai as int]));
            }
            assert(list_len(rv[bi as int]) == kb as int) by {
                if row@[bi as int] is Arr {
                    lemma_jview_list(row@[bi as int]->Arr_0@);
                }
                assert(rv[bi as int] == jview(row@[bi as int]));
            }
            assert(fan as int == fanout(rv[ai as int], rv[bi as int]));
        }
        let ghost out_before = rows_view(out_rows@);
        for s in 0..fan
            invariant
                n == t.rows.len(),
                rowsv == t@.rows,
                t@.wf(),
                i < n,
                ncols == t.cols.len(),
                ai < ncols && bi < ncols,
                rv == rowsv[i as int],
                rv.len() == ncols,
                rv == jview_list(row@),
                row == t.rows@[i as int],
                fan as int == fanout(rv[ai as int], rv[bi as int]),
                out_before == explode_rows(rowsv.take(i as int), ai as int, bi as int),
                out_rows@.len() == out_before.len() + s as int,
                rows_view(out_rows@) =~= out_before + row_group(rv, ai as int, bi as int).take(
                    s as int,
                ),
        {
            let mut nr: Vec<JsonValue> = Vec::new();
            for j in 0..ncols
                invariant
                    ncols == t.cols.len(),
                    ai < ncols && bi < ncols,
                    rv.len() == ncols,
                    rv == jview_list(row@),
                    row == t.rows@[i as int],
                    i < n && n == t.rows.len(),
                    nr@.len() == j,
                    forall|k: int|
                        0 <= k < j ==> jview(#[trigger] nr@[k]) == exploded_row(
                            rv,
                            ai as int,
                            bi as int,
                            s as int,
                        )[k],
            {
                proof {
                    lemma_jview_list(row@);
                }
                let cell: JsonValue = if j == bi {
                    elem_clone(&row[bi], s)
                } else if j == ai {
                    elem_clone(&row[ai], s)
                } else {
                    value_clone(&row[j])
                };
                nr.push(cell);
            }
            proof {
                lemma_jview_list(nr@);
                assert(jview_list(nr@) =~= exploded_row(rv, ai as int, bi as int, s as int));
            }
            out_rows.push(nr);
            proof {
                let g = row_group(rv, ai as int, bi as int);
                let lhs = rows_view(out_rows@);
                let rhs = out_before + g.take(s as int + 1);
                assert(g.len() == fan as int);
                assert(g.take(s as int + 1).len() == s as int + 1);
                assert(out_rows@.len() == out_before.len() + s as int + 1);
                assert(lhs.len() == rhs.len());
                assert forall|k: int| 0 <= k < lhs.len() implies lhs[k] == rhs[k] by {
                    if k < out_before.len() + s as int {
                        assert(lhs[k] == rows_view(out_rows@.drop_last())[k]);
                        assert(rhs[k] == (out_before + g.take(s as int))[k]);
                    } else {
                        assert(lhs[k] == jview_list(nr@));
                        assert(rhs[k] == g[s as int]);
                    }
                }
                assert(lhs =~= rhs);
            }
        }
        proof {
            assert(row_group(rv, ai as int, bi as int).take(fan as int) =~= row_group(
                rv,
                ai as int,
                bi as int,
            ));
            assert(rowsv.take(i as int + 1).drop_last() =~= rowsv.take(i as int));
            assert(rowsv.take(i as int + 1).last() == rv);
            assert(rows_view(out_rows@) =~= explode_rows(
                rowsv.take(i as int + 1),
                ai as int,
                bi as int,
            ));
        }
    }
    let ghost colsv = t@.cols;
    let mut out_cols: Vec<Vec<u8>> = Vec::new();
    let mut ci: usize = 0;
    while ci < ncols
        invariant
            ncols == t.cols.len(),
            ci <= ncols,
            out_cols@.len() == ci as int,
            names_view(out_cols@) =~= t@.cols.take(ci as int),
        decreases ncols - ci,
    {
        let cname = clone_bytes(&t.cols[ci]);
        out_cols.push(cname);
        ci = ci + 1;
        proof {
            let lhs = names_view(out_cols@);
            let rhs = t@.cols.take(ci as int);
            assert(lhs.len() == rhs.len());
            assert forall|k: int| 0 <= k < lhs.len() implies lhs[k] == rhs[k] by {
                if k < ci as int - 1 {
                    assert(lhs[k] == names_view(out_cols@.drop_last())[k]);
                } else {
                    assert(out_cols@[k] == cname);
                }
            }
            assert(lhs =~= rhs);
        }
    }
    let out = Table { cols: out_cols, rows: out_rows };
    proof {
        assert(rowsv.take(n as int) =~= rowsv);
        assert(t@.cols.take(ncols as int) =~= t@.cols);
        assert(out@ =~= explode_spec(t@, a@, b@));
        lemma_explode_wf(t@, a@, b@);
    }
    Ok(out)
}

/// The explode step preserves well-formedness.
pub proof fn lemma_explode_wf(tv: TableV, a: Seq<u8>, b: Seq<u8>)
    requires
        tv.wf(),
        explode_ok(tv, a, b),
    ensures
        explode_spec(tv, a, b).wf(),
        explode_spec(tv, a, b).rows.len() == total_fanout(
            tv.rows,
            first_idx(tv.cols, a),
            first_idx(tv.cols, b),
        ),
{
    let ai = first_idx(tv.cols, a);
    let bi = first_idx(tv.cols, b);
    lemma_first_idx(tv.cols, a);
    lemma_first_idx(tv.cols, b);
    lemma_explode_len(tv.rows, ai, bi);
    lemma_explode_rows_wf(tv.rows, ai, bi, tv.cols.len() as int);
}

/// Every row the explode step emits has the same width as its input
/// row.
proof fn lemma_explode_rows_wf(rows: Seq<Seq<JVal>>, ai: int, bi: int, w: int)
    requires
        0 <= ai < w,
        0 <= bi < w,
        forall|i: int| 0 <= i < rows.len() ==> (#[trigger] rows[i]).len() == w,
    ensures
        forall|i: int|
            0 <= i < explode_rows(rows, ai, bi).len() ==> (#[trigger] explode_rows(
                rows,
                ai,
                bi,
            )[i]).len() == w,
    decreases rows.len(),
{
    if rows.len() != 0 {
        lemma_explode_rows_wf(rows.drop_last(), ai, bi, w);
        assert(rows.last().len() == w);
        let e = explode_rows(rows, ai, bi);
        let p = explode_rows(rows.drop_last(), ai, bi);
        let g = row_group(rows.last(), ai, bi);
        assert forall|i: int| 0 <= i < e.len() implies (#[trigger] e[i]).len() == w by {
            if i < p.len() {
                assert(e[i] == p[i]);
            } else {
                assert(e[i] == g[i - p.len()]);
                assert(g[i - p.len()] == exploded_row(rows.last(), ai, bi, i - p.len()));
            }
        }
    }
}

/// A struct cell after positional renaming: the same field values
/// under the given names.
pub open spec fn rename_cell(c: JVal, names: Seq<Seq<u8>>) -> JVal {
    if c is Obj {
        JVal::Obj(Seq::new(c->Obj_0.len(), |k: int| (names[k], c->Obj_0[k].1)))
    } else {
        c
    }
}

/// A cell the rename step accepts: null, or a struct with exactly the
/// expected number of fields.
pub open spec fn rename_cell_ok(c: JVal, width: int) -> bool {
    c is Null || (c is Obj && c->Obj_0.len() == width)
}

/// When the rename step succeeds: the column exists and every cell of
/// it is null or a struct of the expected arity.
pub open spec fn rename_ok(tv: TableV, name: Seq<u8>, names: Seq<Seq<u8>>) -> bool {
    let ci = first_idx(tv.cols, name);
    &&& ci != -1
    &&& forall|i: int|
        0 <= i < tv.rows.len() ==> rename_cell_ok(#[trigger] tv.rows[i][ci], names.len() as int)
}

/// What the rename step returns.
pub open spec fn rename_spec(tv: TableV, name: Seq<u8>, names: Seq<Seq<u8>>) -> TableV {
    let ci = first_idx(tv.cols, name);
    TableV {
        cols: tv.cols,
        rows: Seq::new(
            tv.rows.len(),
            |i: int| tv.rows[i].update(ci, rename_cell(tv.rows[i][ci], names)),
        ),
    }
}

/// Copies the column names of a table.
pub fn clone_names(cols: &Vec<Vec<u8>>) -> (r: Vec<Vec<u8>>)
    ensures
        names_view(r@) == names_view(cols@),
{
    let n = cols.len();
    let mut out: Vec<Vec<u8>> = Vec::new();
    for i in 0..n
        invariant
            n == cols.len(),
            out@.len() == i,
            forall|k: int| 0 <= k < i ==> out@[k]@ == cols@[k]@,
    {
        out.push(clone_bytes(&cols[i]));
    }
    proof {
        assert(names_view(out@) =~= names_view(cols@));
    }
    out
}

/// Renames the fields of the struct column `name`, by position, to the
/// given field names. Null cells pass through; a cell that is not a
/// struct of the expected arity fails the run.
pub fn rename_struct_fields(t: &Table, name: &Vec<u8>, names: &Vec<Vec<u8>>) -> (r: Result<
    Table,
    PipelineError,
>)
    requires
        t@.wf(),
    ensures
        r is Ok <==> rename_ok(t@, name@, names_view(names@)),
        r matches Ok(out) ==> out@ == rename_spec(t@, name@, names_view(names@)) && out@.wf(),
        r matches Err(e) ==> e is SchemaMismatch,
{
    let ghost namesv = names_view(names@);
    let ghost rowsv = t@.rows;
    let ci = match find_col(&t.cols, name) {
        Some(i) => i,
        None => {
            return Err(PipelineError::SchemaMismatch { column: clone_bytes(name) });
        },
    };
    proof {
        lemma_first_idx(t@.cols, name@);
    }
    let n = t.rows.len();
    let ncols = t.cols.len();
    let width = names.len();
    let ghost spec_rows = rename_spec(t@, name@, namesv).rows;
    let mut out_rows: Vec<Vec<JsonValue>> = Vec::new();
    for i in 0..n
        invariant
            n == t.rows.len(),
            ncols == t.cols.len(),
            width == names.len(),
            namesv == names_view(names@),
            namesv.len() == width,
            rowsv == t@.rows,
            rowsv.len() == n,
            t@.wf(),
            ci == first_idx(t@.cols, name@) && ci < ncols,
            spec_rows == rename_spec(t@, name@, namesv).rows,
            out_rows@.len() == i,
            forall|k: int| 0 <= k < i ==> rename_cell_ok(rowsv[k][ci as int], width as int),
            forall|k: int| 0 <= k < i ==> jview_list(#[trigger] out_rows@[k]@) == spec_rows[k],
    {
        proof {
            lemma_jview_list(t.rows@[i as int]@);
            assert(rowsv[i as int].len() == ncols);
        }
        let row = &t.rows[i];
        let ghost rv = rowsv[i as int];
        let mut nr: Vec<JsonValue> = Vec::new();
        for j in 0..ncols
            invariant
                ncols == t.cols.len(),
                width == names.len(),
                namesv == names_view(names@),
                namesv.len() == width,
                ci < ncols,
                ci == first_idx(t@.cols, name@),
                rowsv == t@.rows,
                rowsv.len() == n,
                i < n && n == t.rows.len(),
                row == t.rows@[i as int],
                rv == jview_list(row@),
                rv.len() == ncols,
                rv == rowsv[i as int],
                j > ci ==> rename_cell_ok(rv[ci as int], width as int),
                nr@.len() == j,
                forall|k: int|
                    0 <= k < j ==> jview(#[trigger] nr@[k]) == rv.update(
                        ci as int,
                        rename_cell(rv[ci as int], namesv),
                    )[k],
        {
            proof {
                lemma_jview_list(row@);
            }
            if j == ci {
                match &row[j] {
                    JsonValue::Null => {
                        nr.push(JsonValue::Null);
                    },
                    JsonValue::Obj(fs) => {
                        proof {
                            lemma_jview_fields(fs@);
                        }
                        if fs.len() != width {
                            proof {
                                assert(rv[ci as int] == jview(row@[ci as int]));
                                assert(!rename_cell_ok(rowsv[i as int][ci as int], width as int));
                                assert(!rename_ok(t@, name@, namesv)) by {
                                    if rename_ok(t@, name@, namesv) {
                                        assert(rename_cell_ok(
                                            rowsv[i as int][ci as int],
                                            width as int,
                                        ));
                                    }
                                }
                            }
                            return Err(
                                PipelineError::SchemaMismatch { column: clone_bytes(name) },
                            );
                        }
                        let mut nf: Vec<(Vec<u8>, JsonValue)> = Vec::new();
                        for k in 0..width
                            invariant
                                width == names.len(),
                                width == fs.len(),
                                namesv == names_view(names@),
                                namesv.len() == width,
                                nf@.len() == k,
                                forall|p: int|
                                    0 <= p < k ==> (#[trigger] nf@[p]).0@ == namesv[p] && jview(
                                        nf@[p].1,
                                    ) == jview(fs@[p].1),
                        {
                            nf.push((clone_bytes(&names[k]), value_clone(&fs[k].1)));
                        }
                        let cell = JsonValue::Obj(nf);
                        proof {
                            lemma_jview_fields(nf@);
                            lemma_jview_fields(fs@);
                            assert(rv[ci as int] == jview(row@[ci as int]));
                            let fv = jview_fields(fs@);
                            assert(fv.len() == width);
                            assert(rv[ci as int] == JVal::Obj(fv));
                            let rc = rename_cell(rv[ci as int], namesv);
                            assert(rc->Obj_0.len() == width);
                            assert(jview_fields(nf@).len() == width);
                            assert forall|p: int|
                                0 <= p < width implies jview_fields(nf@)[p] == rc->Obj_0[p] by {
                                assert(jview_fields(nf@)[p] == (nf@[p].0@, jview(nf@[p].1)));
                                assert(rc->Obj_0[p] == (namesv[p], fv[p].1));
                                assert(fv[p].1 == jview(fs@[p].1));
                            }
                            assert(jview_fields(nf@) =~= rc->Obj_0);
                            assert(jview(cell) == JVal::Obj(jview_fields(nf@)));
                            assert(jview(cell) == rc);
                        }
                        nr.push(cell);
                    },
                    _ => {
                        proof {
                            assert(rv[ci as int] == jview(row@[ci as int]));
                            assert(!rename_cell_ok(rowsv[i as int][ci as int], width as int));
                            assert(!rename_ok(t@, name@, namesv)) by {
                                if rename_ok(t@, name@, namesv) {
                                    assert(rename_cell_ok(
                                        rowsv[i as int][ci as int],
                                        width as int,
                                    ));
                                }
                            }
                        }
                        return Err(PipelineError::SchemaMismatch { column: clone_bytes(name) });
                    },
                }
            } else {
                nr.push(value_clone(&row[j]));
            }
        }
        proof {
            lemma_jview_list(nr@);
            assert(jview_list(nr@) =~= rv.update(ci as int, rename_cell(rv[ci as int], namesv)));
        }
        out_rows.push(nr);
    }
    let out = Table { cols: clone_names(&t.cols), rows: out_rows };
    proof {
        assert(out@.rows =~= spec_rows);
        assert(out@ =~= rename_spec(t@, name@, namesv));
        assert(out@.wf()) by {
            assert(forall|i: int|
                0 <= i < out@.rows.len() ==> (#[trigger] out@.rows[i]).len() == out@.cols.len());
        }
    }
    Ok(out)
}

/// The column list after unnesting: the struct column replaced by its
/// field names.
pub open spec fn splice_cols(cols: Seq<Seq<u8>>, ci: int, names: Seq<Seq<u8>>) -> Seq<Seq<u8>> {
    cols.subrange(0, ci) + names + cols.subrange(ci + 1, cols.len() as int)
}

/// A cell the unnest step accepts: null, or a struct whose field names
/// are exactly the expected ones, in order.
pub open spec fn unnest_cell_ok(c: JVal, names: Seq<Seq<u8>>) -> bool {
    ||| c is Null
    ||| (c is Obj && c->Obj_0.len() == names.len() && (forall|k: int|
        0 <= k < names.len() ==> (#[trigger] c->Obj_0[k]).0 == names[k]))
}

/// The cells a struct cell contributes when unnested: its field
/// values, or all nulls for a null cell.
pub open spec fn unnest_values(c: JVal, width: int) -> Seq<JVal> {
    if c is Obj {
        Seq::new(
            width as nat,
            |k: int|
                if 0 <= k < c->Obj_0.len() {
                    c->Obj_0[k].1
                } else {
                    JVal::Null
                },
        )
    } else {
        Seq::new(width as nat, |k: int| JVal::Null)
    }
}

/// One row after unnesting: the struct cell replaced by its field
/// values.
pub open spec fn unnest_row(row: Seq<JVal>, ci: int, width: int) -> Seq<JVal> {
    row.subrange(0, ci) + unnest_values(row[ci], width) + row.subrange(ci + 1, row.len() as int)
}

/// When the unnest step succeeds: the column exists, the new column
/// list stays distinct, and every cell is null or a struct carrying
/// exactly the expected field names.
pub open spec fn unnest_ok(tv: TableV, name: Seq<u8>, names: Seq<Seq<u8>>) -> bool {
    let ci = first_idx(tv.cols, name);
    &&& ci != -1
    &&& distinct(splice_cols(tv.cols, ci, names))
    &&& forall|i: int| 0 <= i < tv.rows.len() ==> unnest_cell_ok(#[trigger] tv.rows[i][ci], names)
}

/// What the unnest step returns.
pub open spec fn unnest_spec(tv: TableV, name: Seq<u8>, names: Seq<Seq<u8>>) -> TableV {
    let ci = first_idx(tv.cols, name);
    TableV {
        cols: splice_cols(tv.cols, ci, names),
        rows: Seq::new(
            tv.rows.len(),
            |i: int| unnest_row(tv.rows[i], ci, names.len() as int),
        ),
    }
}

/// Whether a list of column names is pairwise distinct.
pub fn check_distinct(cols: &Vec<Vec<u8>>) -> (r: bool)
    ensures
        r <==> distinct(names_view(cols@)),
{
    let n = cols.len();
    for i in 0..n
        invariant
            n == cols.len(),
            forall|p: int, q: int| 0 <= p < q < n && p < i ==> names_view(cols@)[p] != names_view(
                cols@,
            )[q],
    {
        let mut j = i + 1;
        while j < n
            invariant
                n == cols.len(),
                i < j <= n,
                forall|q: int| i < q < j ==> names_view(cols@)[i as int] != names_view(cols@)[q],
            decreases n - j,
        {
            if compare_bytes(&cols[i], &cols[j]) {
                proof {
                    assert(names_view(cols@)[i as int] == names_view(cols@)[j as int]);
                    assert(!distinct(names_view(cols@)));
                }
                return false;
            }
            j = j + 1;
        }
    }
    true
}

/// Unnests the struct column `name`: replaces it by one top-level
/// column per field, keeping the field order; a null cell becomes all
/// nulls. The cells must carry exactly the given field names.
pub fn unnest_struct(t: &Table, name: &Vec<u8>, names: &Vec<Vec<u8>>) -> (r: Result<
    Table,
    PipelineError,
>)
    requires
        t@.wf(),
    ensures
        r is Ok <==> unnest_ok(t@, name@, names_view(names@)),
        r matches Ok(out) ==> out@ == unnest_spec(t@, name@, names_view(names@)) && out@.wf(),
        r matches Err(e) ==> e is SchemaMismatch,
{
    let ghost namesv = names_view(names@);
    let ghost rowsv = t@.rows;
    let ci = match find_col(&t.cols, name) {
        Some(i) => i,
        None => {
            return Err(PipelineError::SchemaMismatch { column: clone_bytes(name) });
        },
    };
    proof {
        lemma_first_idx(t@.cols, name@);
    }
    let n = t.rows.len();
    let ncols = t.cols.len();
    let width = names.len();

    // the new column list, which must stay distinct
    let mut out_cols: Vec<Vec<u8>> = Vec::new();
    let mut p: usize = 0;
    while p < ci
        invariant
            ci < ncols && ncols == t.cols.len(),
            p <= ci,
            out_cols@.len() == p as int,
            forall|k: int| 0 <= k < p ==> names_view(out_cols@)[k] == t@.cols[k],
        decreases ci - p,
    {
        out_cols.push(clone_bytes(&t.cols[p]));
        p = p + 1;
    }
    let mut q: usize = 0;
    while q < width
        invariant
            ci < ncols && ncols == t.cols.len(),
            width == names.len(),
            namesv == names_view(names@),
            namesv.len() == width,
            q <= width,
            out_cols@.len() == ci as int + q as int,
            forall|k: int| 0 <= k < ci ==> names_view(out_cols@)[k] == t@.cols[k],
            forall|k: int| 0 <= k < q ==> names_view(out_cols@)[ci as int + k] == namesv[k],
        decreases width - q,
    {
        out_cols.push(clone_bytes(&names[q]));
        q = q + 1;
    }
    let mut s: usize = ci + 1;
    while s < ncols
        invariant
            ci < ncols && ncols == t.cols.len(),
            width == names.len(),
            namesv.len() == width,
            ci < s <= ncols,
            out_cols@.len() == ci as int + width as int + s as int - ci as int - 1,
            forall|k: int| 0 <= k < ci ==> names_view(out_cols@)[k] == t@.cols[k],
            forall|k: int| 0 <= k < width ==> names_view(out_cols@)[ci as int + k] == namesv[k],
            forall|k: int|
                ci < k < s ==> names_view(out_cols@)[width as int + k - 1] == t@.cols[k],
        decreases ncols - s,
    {
        out_cols.push(clone_bytes(&t.cols[s]));
        s = s + 1;
    }
    proof {
        assert(names_view(out_cols@) =~= splice_cols(t@.cols, ci as int, namesv));
    }
    if !check_distinct(&out_cols) {
        proof {
            assert(!unnest_ok(t@, name@, namesv));
        }
        return Err(PipelineError::SchemaMismatch { column: clone_bytes(name) });
    }

    // the rows
    let ghost spec_rows = unnest_spec(t@, name@, namesv).rows;
    let mut out_rows: Vec<Vec<JsonValue>> = Vec::new();
    for i in 0..n
        invariant
            n == t.rows.len(),
            ncols == t.cols.len(),
            width == names.len(),
            namesv == names_view(names@),
            namesv.len() == width,
            rowsv == t@.rows,
            rowsv.len() == n,
            t@.wf(),
            ci == first_idx(t@.cols, name@) && ci < ncols,
            spec_rows == unnest_spec(t@, name@, namesv).rows,
            out_rows@.len() == i,
            forall|k: int| 0 <= k < i ==> unnest_cell_ok(rowsv[k][ci as int], namesv),
            forall|k: int| 0 <= k < i ==> jview_list(#[trigger] out_rows@[k]@) == spec_rows[k],
    {
        proof {
            lemma_jview_list(t.rows@[i as int]@);
            assert(rowsv[i as int].len() == ncols);
        }
        let row = &t.rows[i];
        let ghost rv = rowsv[i as int];
        let mut nr: Vec<JsonValue> = Vec::new();
        let mut j: usize = 0;
        while j < ci
            invariant
                ci < ncols && ncols == t.cols.len(),
                i < n && n == t.rows.len(),
                row == t.rows@[i as int],
                rv == jview_list(row@),
                rv.len() == ncols,
                j <= ci,
                nr@.len() == j,
                forall|k: int| 0 <= k < j ==> jview(#[trigger] nr@[k]) == rv[k],
            decreases ci - j,
        {
            proof {
                lemma_jview_list(row@);
            }
            nr.push(value_clone(&row[j]));
            j = j + 1;
        }
        proof {
            lemma_jview_list(row@);
            assert(rv[ci as int] == jview(row@[ci as int]));
        }
        match &row[ci] {
            JsonValue::Null => {
                let mut k: usize = 0;
                while k < width
                    invariant
                        width == names.len(),
                        namesv.len() == width,
                        rv.len() == ncols && ci < ncols,
                        rv[ci as int] is Null,
                        k <= width,
                        nr@.len() == ci as int + k as int,
                        forall|p2: int| 0 <= p2 < ci ==> jview(#[trigger] nr@[p2]) == rv[p2],
                        forall|p2: int|
                            ci as int <= p2 < ci as int + k as int ==> jview(#[trigger] nr@[p2])
                                == unnest_values(rv[ci as int], width as int)[p2 - ci as int],
                    decreases width - k,
                {
                    nr.push(JsonValue::Null);
                    k = k + 1;
                }
            },
            JsonValue::Obj(fs) => {
                proof {
                    lemma_jview_fields(fs@);
                }
                let mut name_match = fs.len() == width;
                proof {
                    if !name_match {
                        assert(!unnest_cell_ok(rv[ci as int], namesv));
                    }
                }
                let mut k: usize = 0;
                while name_match && k < width
                    invariant
                        width == names.len() && width == fs.len() || !name_match,
                        namesv == names_view(names@),
                        namesv.len() == width,
                        k <= width,
                        rv[ci as int] == JVal::Obj(jview_fields(fs@)),
                        rv == rowsv[i as int],
                        name_match ==> width == fs.len() && (forall|p2: int|
                            0 <= p2 < k ==> (#[trigger] jview_fields(fs@)[p2]).0 == namesv[p2]),
                        !name_match ==> !unnest_cell_ok(rv[ci as int], namesv),
                    decreases width - k, (if name_match { 1int } else { 0int }),
                {
                    proof {
                        lemma_jview_fields(fs@);
                    }
                    if !compare_bytes(&fs[k].0, &names[k]) {
                        proof {
                            assert(jview_fields(fs@)[k as int].0 != namesv[k as int]);
                            assert(!unnest_cell_ok(rv[ci as int], namesv));
                        }
                        name_match = false;
                    } else {
                        k = k + 1;
                    }
                }
                if !name_match {
                    proof {
                        assert(!unnest_cell_ok(rowsv[i as int][ci as int], namesv));
                        assert(!unnest_ok(t@, name@, namesv)) by {
                            if unnest_ok(t@, name@, namesv) {
                                assert(unnest_cell_ok(rowsv[i as int][ci as int], namesv));
                            }
                        }
                    }
                    return Err(PipelineError::SchemaMismatch { column: clone_bytes(name) });
                }
                let mut k: usize = 0;
                while k < width
                    invariant
                        width == names.len() && width == fs.len(),
                        rv.len() == ncols && ci < ncols,
                        rv[ci as int] == JVal::Obj(jview_fields(fs@)),
                        jview_fields(fs@).len() == width,
                        nr@.len() == ci as int + k as int,
                        k <= width,
                        forall|p2: int| 0 <= p2 < ci ==> jview(#[trigger] nr@[p2]) == rv[p2],
                        forall|p2: int|
                            ci as int <= p2 < ci as int + k as int ==> jview(#[trigger] nr@[p2])
                                == unnest_values(rv[ci as int], width as int)[p2 - ci as int],
                    decreases width - k,
                {
                    proof {
                        lemma_jview_fields(fs@);
                    }
                    nr.push(value_clone(&fs[k].1));
                    k = k + 1;
                }
            },
            _ => {
                proof {
                    assert(!unnest_cell_ok(rowsv[i as int][ci as int], namesv));
                    assert(!unnest_ok(t@, name@, namesv)) by {
                        if unnest_ok(t@, name@, namesv) {
                            assert(unnest_cell_ok(rowsv[i as int][ci as int], namesv));
                        }
                    }
                }
                return Err(PipelineError::SchemaMismatch { column: clone_bytes(name) });
            },
        }
        let mut j2: usize = ci + 1;
        while j2 < ncols
            invariant
                ci < ncols && ncols == t.cols.len(),
                width == names.len(),
                i < n && n == t.rows.len(),
                row == t.rows@[i as int],
                rv == jview_list(row@),
                rv.len() == ncols,
                ci < j2 <= ncols,
                nr@.len() == ci as int + width as int + j2 as int - ci as int - 1,
                forall|p2: int| 0 <= p2 < ci ==> jview(#[trigger] nr@[p2]) == rv[p2],
                forall|p2: int|
                    ci as int <= p2 < ci as int + width as int ==> jview(#[trigger] nr@[p2])
                        == unnest_values(rv[ci as int], width as int)[p2 - ci as int],
                forall|p2: int|
                    ci as int + width as int <= p2 < nr@.len() ==> jview(#[trigger] nr@[p2])
                        == rv[p2 - width as int + 1],
            decreases ncols - j2,
        {
            proof {
                lemma_jview_list(row@);
            }
            nr.push(value_clone(&row[j2]));
            j2 = j2 + 1;
        }
        proof {
            lemma_jview_list(nr@);
            assert(jview_list(nr@) =~= unnest_row(rv, ci as int, width as int));
        }
        out_rows.push(nr);
    }
    let out = Table { cols: out_cols, rows: out_rows };
    proof {
        assert(out@.rows =~= spec_rows);
        assert(out@ =~= unnest_spec(t@, name@, namesv));
        assert(out@.wf()) by {
            assert(forall|i: int|
                0 <= i < out@.rows.len() ==> (#[trigger] out@.rows[i]).len() == out@.cols.len());
        }
    }
    Ok(out)
}

/// The outcome cell of one row: the team side wins exactly when its
/// crown count is a number strictly greater than the opponent's; every
/// other case, ties included, goes to the opponent.
pub open spec fn winner_of(tc: JVal, oc: JVal) -> JVal {
    if tc is Int && oc is Int && tc->Int_0 > oc->Int_0 {
        JVal::Str(s_team())
    } else {
        JVal::Str(s_opponent())
    }
}

/// When the winner step succeeds: both crown columns exist and no
/// winner column does yet.
pub open spec fn winner_ok(tv: TableV) -> bool {
    &&& first_idx(tv.cols, s_team_crowns()) != -1
    &&& first_idx(tv.cols, s_opponent_crowns()) != -1
    &&& first_idx(tv.cols, s_winner()) == -1
}

/// What the winner step returns: the table with a winner column
/// appended.
pub open spec fn winner_spec(tv: TableV) -> TableV {
    let tci = first_idx(tv.cols, s_team_crowns());
    let oci = first_idx(tv.cols, s_opponent_crowns());
    TableV {
        cols: tv.cols.push(s_winner()),
        rows: Seq::new(
            tv.rows.len(),
            |i: int| tv.rows[i].push(winner_of(tv.rows[i][tci], tv.rows[i][oci])),
        ),
    }
}

/// Appends the derived `winner` column: "team" exactly when
/// `teamCrowns` is a number strictly greater than `opponentCrowns`,
/// else "opponent".
pub fn derive_winner(t: &Table) -> (r: Result<Table, PipelineError>)
    requires
        t@.wf(),
    ensures
        r is Ok <==> winner_ok(t@),
        r matches Ok(out) ==> out@ == winner_spec(t@) && out@.wf(),
        r matches Err(e) ==> e is SchemaMismatch,
{
    let ghost rowsv = t@.rows;
    let tc_name = name_team_crowns();
    let oc_name = name_opponent_crowns();
    let w_name = name_winner();
    let tci = match find_col(&t.cols, &tc_name) {
        Some(i) => i,
        None => {
            return Err(PipelineError::SchemaMismatch { column: tc_name });
        },
    };
    let oci = match find_col(&t.cols, &oc_name) {
        Some(i) => i,
        None => {
            return Err(PipelineError::SchemaMismatch { column: oc_name });
        },
    };
    match find_col(&t.cols, &w_name) {
        Some(_) => {
            return Err(PipelineError::SchemaMismatch { column: w_name });
        },
        None => {},
    };
    proof {
        lemma_first_idx(t@.cols, s_team_crowns());
        lemma_first_idx(t@.cols, s_opponent_crowns());
    }
    let n = t.rows.len();
    let ncols = t.cols.len();
    let ghost spec_rows = winner_spec(t@).rows;
    let mut out_rows: Vec<Vec<JsonValue>> = Vec::new();
    for i in 0..n
        invariant
            n == t.rows.len(),
            ncols == t.cols.len(),
            rowsv == t@.rows,
            rowsv.len() == n,
            t@.wf(),
            tci == first_idx(t@.cols, s_team_crowns()) && tci < ncols,
            oci == first_idx(t@.cols, s_opponent_crowns()) && oci < ncols,
            spec_rows == winner_spec(t@).rows,
            out_rows@.len() == i,
            forall|k: int| 0 <= k < i ==> jview_list(#[trigger] out_rows@[k]@) == spec_rows[k],
    {
        proof {
            lemma_jview_list(t.rows@[i as int]@);
            assert(rowsv[i as int].len() == ncols);
        }
        let row = &t.rows[i];
        let ghost rv = rowsv[i as int];
        let mut nr: Vec<JsonValue> = Vec::new();
        for j in 0..ncols
            invariant
                ncols == t.cols.len(),
                i < n && n == t.rows.len(),
                row == t.rows@[i as int],
                rv == jview_list(row@),
                rv.len() == ncols,
                nr@.len() == j,
                forall|k: int| 0 <= k < j ==> jview(#[trigger] nr@[k]) == rv[k],
        {
            proof {
                lemma_jview_list(row@);
            }
            nr.push(value_clone(&row[j]));
        }
        let wcell: JsonValue = match (&row[tci], &row[oci]) {
            (JsonValue::Int(x), JsonValue::Int(y)) => {
                if *x > *y {
                    JsonValue::Str(name_team())
                } else {
                    JsonValue::Str(name_opponent())
                }
            },
            _ => JsonValue::Str(name_opponent()),
        };
        proof {
            lemma_jview_list(row@);
            assert(rv[tci as int] == jview(row@[tci as int]));
            assert(rv[oci as int] == jview(row@[oci as int]));
            assert(wcell@ == winner_of(rv[tci as int], rv[oci as int]));
        }
        nr.push(wcell);
        proof {
            lemma_jview_list(nr@);
            assert(jview_list(nr@) =~= rv.push(winner_of(rv[tci as int], rv[oci as int])));
        }
        out_rows.push(nr);
    }
    let mut out_cols = clone_names(&t.cols);
    out_cols.push(w_name);
    let out = Table { cols: out_cols, rows: out_rows };
    proof {
        assert(names_view(out_cols@) =~= t@.cols.push(s_winner()));
        assert(out@.rows =~= spec_rows);
        assert(out@ =~= winner_spec(t@));
        lemma_first_idx(t@.cols, s_winner());
        assert(out@.wf()) by {
            assert(forall|i: int|
                0 <= i < out@.rows.len() ==> (#[trigger] out@.rows[i]).len() == out@.cols.len());
            assert forall|p: int, q: int|
                0 <= p < q < out@.cols.len() implies out@.cols[p] != out@.cols[q] by {
                if q == out@.cols.len() - 1 {
                    assert(t@.cols[p] != s_winner());
                }
            }
        }
    }
    Ok(out)
}

/// The field names of the `arena` struct, in upstream order.
pub open spec fn arena_fields() -> Seq<Seq<u8>> {
    seq![s_arena_id(), s_arena_name()]
}

/// The field names of the `gameMode` struct, in upstream order.
pub open spec fn gamemode_fields() -> Seq<Seq<u8>> {
    seq![s_gamemode_id(), s_gamemode_name()]
}

/// The field names of one team-side participant, in upstream order.
pub open spec fn team_fields() -> Seq<Seq<u8>> {
    seq![
        s_team_tag(),
        s_team_name(),
        s_team_starting_trophies(),
        s_team_trophy_change(),
        s_team_crowns(),
        s_team_king_tower_hit_points(),
        s_team_princess_tower_hit_points(),
        s_team_clan(),
        s_team_cards(),
    ]
}

/// The field names of one opponent-side participant, in upstream
/// order.
pub open spec fn opponent_fields() -> Seq<Seq<u8>> {
    seq![
        s_opponent_tag(),
        s_opponent_name(),
        s_opponent_starting_trophies(),
        s_opponent_trophy_change(),
        s_opponent_crowns(),
        s_opponent_king_tower_hit_points(),
        s_opponent_princess_tower_hit_points(),
        s_opponent_clan(),
        s_opponent_cards(),
    ]
}

/// The field names of the team-side clan struct, in upstream order.
pub open spec fn team_clan_fields() -> Seq<Seq<u8>> {
    seq![s_team_clan_tag(), s_team_clan_name(), s_team_clan_badge_id()]
}

/// The field names of the opponent-side clan struct, in upstream
/// order.
pub open spec fn opponent_clan_fields() -> Seq<Seq<u8>> {
    seq![s_opponent_clan_tag(), s_opponent_clan_name(), s_opponent_clan_badge_id()]
}

/// Builds the `arena` field names.
pub fn arena_field_names() -> (r: Vec<Vec<u8>>)
    ensures
        names_view(r@) == arena_fields(),
{
    let mut v: Vec<Vec<u8>> = Vec::new();
    v.push(name_arena_id());
    v.push(name_arena_name());
    proof {
        assert(names_view(v@) =~= arena_fields());
    }
    v
}

/// Builds the `gameMode` field names.
pub fn gamemode_field_names() -> (r: Vec<Vec<u8>>)
    ensures
        names_view(r@) == gamemode_fields(),
{
    let mut v: Vec<Vec<u8>> = Vec::new();
    v.push(name_gamemode_id());
    v.push(name_gamemode_name());
    proof {
        assert(names_view(v@) =~= gamemode_fields());
    }
    v
}

/// Builds the team-side participant field names.
pub fn team_field_names() -> (r: Vec<Vec<u8>>)
    ensures
        names_view(r@) == team_fields(),
{
    let mut v: Vec<Vec<u8>> = Vec::new();
    v.push(name_team_tag());
    v.push(name_team_name());
    v.push(name_team_starting_trophies());
    v.push(name_team_trophy_change());
    v.push(name_team_crowns());
    v.push(name_team_king_tower_hit_points());
    v.push(name_team_princess_tower_hit_points());
    v.push(name_team_clan());
    v.push(name_team_cards());
    proof {
        assert(names_view(v@) =~= team_fields());
    }
    v
}

/// Builds the opponent-side participant field names.
pub fn opponent_field_names() -> (r: Vec<Vec<u8>>)
    ensures
        names_view(r@) == opponent_fields(),
{
    let mut v: Vec<Vec<u8>> = Vec::new();
    v.push(name_opponent_tag());
    v.push(name_opponent_name());
    v.push(name_opponent_starting_trophies());
    v.push(name_opponent_trophy_change());
    v.push(name_opponent_crowns());
    v.push(name_opponent_king_tower_hit_points());
    v.push(name_opponent_princess_tower_hit_points());
    v.push(name_opponent_clan());
    v.push(name_opponent_cards());
    proof {
        assert(names_view(v@) =~= opponent_fields());
    }
    v
}

/// Builds the team-side clan field names.
pub fn team_clan_field_names() -> (r: Vec<Vec<u8>>)
    ensures
        names_view(r@) == team_clan_fields(),
{
    let mut v: Vec<Vec<u8>> = Vec::new();
    v.push(name_team_clan_tag());
    v.push(name_team_clan_name());
    v.push(name_team_clan_badge_id());
    proof {
        assert(names_view(v@) =~= team_clan_fields());
    }
    v
}

/// Builds the opponent-side clan field names.
pub fn opponent_clan_field_names() -> (r: Vec<Vec<u8>>)
    ensures
        names_view(r@) == opponent_clan_fields(),
{
    let mut v: Vec<Vec<u8>> = Vec::new();
    v.push(name_opponent_clan_tag());
    v.push(name_opponent_clan_name());
    v.push(name_opponent_clan_badge_id());
    proof {
        assert(names_view(v@) =~= opponent_clan_fields());
    }
    v
}

/// The table after the explode and the four positional renames.
pub open spec fn renamed_spec(tv: TableV) -> TableV {
    let t1 = explode_spec(tv, s_team(), s_opponent());
    let t2 = rename_spec(t1, s_arena(), arena_fields());
    let t3 = rename_spec(t2, s_game_mode(), gamemode_fields());
    let t4 = rename_spec(t3, s_team(), team_fields());
    rename_spec(t4, s_opponent(), opponent_fields())
}

/// The table after the first round of unnesting.
pub open spec fn unnested_spec(tv: TableV) -> TableV {
    let t5 = renamed_spec(tv);
    let t6 = unnest_spec(t5, s_arena(), arena_fields());
    let t7 = unnest_spec(t6, s_game_mode(), gamemode_fields());
    let t8 = unnest_spec(t7, s_team(), team_fields());
    unnest_spec(t8, s_opponent(), opponent_fields())
}

/// The table after the clan renames and unnests.
pub open spec fn clan_spec(tv: TableV) -> TableV {
    let t9 = unnested_spec(tv);
    let t10 = rename_spec(t9, s_team_clan(), team_clan_fields());
    let t11 = rename_spec(t10, s_opponent_clan(), opponent_clan_fields());
    let t12 = unnest_spec(t11, s_team_clan(), team_clan_fields());
    unnest_spec(t12, s_opponent_clan(), opponent_clan_fields())
}

/// What the whole normalizer returns.
pub open spec fn normalize_spec(tv: TableV) -> TableV {
    winner_spec(clan_spec(tv))
}

/// When the whole normalizer succeeds: every step accepts the table
/// the previous one produced.
pub open spec fn normalize_ok(tv: TableV) -> bool {
    let t1 = explode_spec(tv, s_team(), s_opponent());
    let t2 = rename_spec(t1, s_arena(), arena_fields());
    let t3 = rename_spec(t2, s_game_mode(), gamemode_fields());
    let t4 = rename_spec(t3, s_team(), team_fields());
    let t5 = rename_spec(t4, s_opponent(), opponent_fields());
    let t6 = unnest_spec(t5, s_arena(), arena_fields());
    let t7 = unnest_spec(t6, s_game_mode(), gamemode_fields());
    let t8 = unnest_spec(t7, s_team(), team_fields());
    let t9 = unnest_spec(t8, s_opponent(), opponent_fields());
    let t10 = rename_spec(t9, s_team_clan(), team_clan_fields());
    let t11 = rename_spec(t10, s_opponent_clan(), opponent_clan_fields());
    let t12 = unnest_spec(t11, s_team_clan(), team_clan_fields());
    let t13 = unnest_spec(t12, s_opponent_clan(), opponent_clan_fields());
    &&& explode_ok(tv, s_team(), s_opponent())
    &&& rename_ok(t1, s_arena(), arena_fields())
    &&& rename_ok(t2, s_game_mode(), gamemode_fields())
    &&& rename_ok(t3, s_team(), team_fields())
    &&& rename_ok(t4, s_opponent(), opponent_fields())
    &&& unnest_ok(t5, s_arena(), arena_fields())
    &&& unnest_ok(t6, s_game_mode(), gamemode_fields())
    &&& unnest_ok(t7, s_team(), team_fields())
    &&& unnest_ok(t8, s_opponent(), opponent_fields())
    &&& rename_ok(t9, s_team_clan(), team_clan_fields())
    &&& rename_ok(t10, s_opponent_clan(), opponent_clan_fields())
    &&& unnest_ok(t11, s_team_clan(), team_clan_fields())
    &&& unnest_ok(t12, s_opponent_clan(), opponent_clan_fields())
    &&& winner_ok(t13)
}

/// Flattens one parsed battle-log table into the flat snapshot schema:
/// explodes the two side lists, renames the nested struct fields to
/// their prefixed top-level names, unnests the structs, and appends
/// the derived `winner` column.
pub fn normalize(t: &Table) -> (r: Result<Table, PipelineError>)
    requires
        t@.wf(),
    ensures
        r is Ok <==> normalize_ok(t@),
        r matches Ok(out) ==> out@ == normalize_spec(t@) && out@.wf(),
        r matches Err(e) ==> e is SchemaMismatch,
{
    let t1 = match explode_two(t, &name_team(), &name_opponent()) {
        Ok(x) => x,
        Err(e) => {
            return Err(e);
        },
    };
    let t2 = match rename_struct_fields(&t1, &name_arena(), &arena_field_names()) {
        Ok(x) => x,
        Err(e) => {
            return Err(e);
        },
    };
    let t3 = match rename_struct_fields(&t2, &name_game_mode(), &gamemode_field_names()) {
        Ok(x) => x,
        Err(e) => {
            return Err(e);
        },
    };
    let t4 = match rename_struct_fields(&t3, &name_team(), &team_field_names()) {
        Ok(x) => x,
        Err(e) => {
            return Err(e);
        },
    };
    let t5 = match rename_struct_fields(&t4, &name_opponent(), &opponent_field_names()) {
        Ok(x) => x,
        Err(e) => {
            return Err(e);
        },
    };
    let t6 = match unnest_struct(&t5, &name_arena(), &arena_field_names()) {
        Ok(x) => x,
        Err(e) => {
            return Err(e);
        },
    };
    let t7 = match unnest_struct(&t6, &name_game_mode(), &gamemode_field_names()) {
        Ok(x) => x,
        Err(e) => {
            return Err(e);
        },
    };
    let t8 = match unnest_struct(&t7, &name_team(), &team_field_names()) {
        Ok(x) => x,
        Err(e) => {
            return Err(e);
        },
    };
    let t9 = match unnest_struct(&t8, &name_opponent(), &opponent_field_names()) {
        Ok(x) => x,
        Err(e) => {
            return Err(e);
        },
    };
    let t10 = match rename_struct_fields(&t9, &name_team_clan(), &team_clan_field_names()) {
        Ok(x) => x,
        Err(e) => {
            return Err(e);
        },
    };
    let t11 = match rename_struct_fields(
        &t10,
        &name_opponent_clan(),
        &opponent_clan_field_names(),
    ) {
        Ok(x) => x,
        Err(e) => {
            return Err(e);
        },
    };
    let t12 = match unnest_struct(&t11, &name_team_clan(), &team_clan_field_names()) {
        Ok(x) => x,
        Err(e) => {
            return Err(e);
        },
    };
    let t13 = match unnest_struct(&t12, &name_opponent_clan(), &opponent_clan_field_names()) {
        Ok(x) => x,
        Err(e) => {
            return Err(e);
        },
    };
    let out = match derive_winner(&t13) {
        Ok(x) => x,
        Err(e) => {
            return Err(e);
        },
    };
    Ok(out)
}

} // verus!
