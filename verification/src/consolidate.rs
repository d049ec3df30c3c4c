//! The consolidator: unions the schemas of many snapshot tables,
//! fills missing columns with null, removes duplicate rows keeping
//! first occurrences, and sorts by match time, descending, stably.

use vstd::prelude::*;

use crate::value::JVal;
use crate::value::JsonValue;
use crate::value::jview;
use crate::value::jview_list;
use crate::value::lemma_jview_list;
use crate::value::compare_bytes;
use crate::value::clone_bytes;
use crate::value::value_clone;
use crate::value::value_eq;
use crate::table::Table;
use crate::table::TableV;
use crate::table::names_view;
use crate::table::rows_view;
use crate::table::first_idx;
use crate::table::lemma_first_idx;
use crate::table::find_col;
use crate::table::distinct;
use crate::table::add_keys;
use crate::table::lemma_add_keys;
use crate::table::col_consistent;
use crate::table::table_consistent;
use crate::table::tag_of;
use crate::table::tag_of_value;
use crate::table::Tag;
use crate::names::s_battle_time;
use crate::names::name_battle_time;
use crate::PipelineError;

verus! {

/// Model of a list of tables.
pub open spec fn tables_view(ts: Seq<Table>) -> Seq<TableV> {
    Seq::new(ts.len(), |i: int| ts[i]@)
}

/// The union schema: every column name of every snapshot, in order of
/// first appearance.
pub open spec fn union_cols(ts: Seq<TableV>) -> Seq<Seq<u8>>
    decreases ts.len(),
{
    if ts.len() == 0 {
        Seq::empty()
    } else {
        add_keys(union_cols(ts.drop_last()), ts.last().cols)
    }
}

/// The cell a snapshot contributes to a union column: its own cell
/// when it has the column, else null.
pub open spec fn align_cell(tv: TableV, i: int, name: Seq<u8>) -> JVal {
    let ci = first_idx(tv.cols, name);
    if ci == -1 {
        JVal::Null
    } else {
        tv.rows[i][ci]
    }
}

/// One snapshot's rows, aligned to the union schema.
pub open spec fn aligned_rows(tv: TableV, u: Seq<Seq<u8>>) -> Seq<Seq<JVal>> {
    Seq::new(tv.rows.len(), |i: int| Seq::new(u.len(), |j: int| align_cell(tv, i, u[j])))
}

/// All snapshots' rows, aligned to the union schema, snapshot by
/// snapshot, in order.
pub open spec fn all_rows(ts: Seq<TableV>, u: Seq<Seq<u8>>) -> Seq<Seq<JVal>>
    decreases ts.len(),
{
    if ts.len() == 0 {
        Seq::empty()
    } else {
        all_rows(ts.drop_last(), u) + aligned_rows(ts.last(), u)
    }
}

/// When the union succeeds: every union column's non-null cells agree
/// on one type across all snapshots.
pub open spec fn union_ok(ts: Seq<TableV>) -> bool {
    table_consistent(all_rows(ts, union_cols(ts)), union_cols(ts).len() as int)
}

/// Two rows record the same logical match exactly when every column
/// both hold a value for agrees; a null is compatible with anything.
pub open spec fn row_compat(a: Seq<JVal>, b: Seq<JVal>) -> bool {
    &&& a.len() == b.len()
    &&& forall|j: int| 0 <= j < a.len() ==> (#[trigger] a[j]) is Null || b[j] is Null || a[j] == b[j]
}

/// The union of two compatible rows: each null filled from the other.
pub open spec fn merge_row(a: Seq<JVal>, b: Seq<JVal>) -> Seq<JVal> {
    Seq::new(
        a.len(),
        |j: int|
            if a[j] is Null {
                b[j]
            } else {
                a[j]
            },
    )
}

/// Index of the first row compatible with `r`, or -1.
pub open spec fn first_compat(rs: Seq<Seq<JVal>>, r: Seq<JVal>) -> int
    decreases rs.len(),
{
    if rs.len() == 0 {
        -1
    } else if row_compat(rs[0], r) {
        0
    } else {
        let p = first_compat(rs.drop_first(), r);
        if p == -1 {
            -1
        } else {
            p + 1
        }
    }
}

/// What `first_compat` returns: -1 exactly when no row is compatible,
/// else the position of the first compatible row.
pub proof fn lemma_first_compat(rs: Seq<Seq<JVal>>, r: Seq<JVal>)
    ensures
        first_compat(rs, r) == -1 <==> (forall|k: int|
            0 <= k < rs.len() ==> !row_compat(#[trigger] rs[k], r)),
        first_compat(rs, r) != -1 ==> 0 <= first_compat(rs, r) < rs.len() && row_compat(
            rs[first_compat(rs, r)],
            r,
        ) && (forall|k: int| 0 <= k < first_compat(rs, r) ==> !row_compat(#[trigger] rs[k], r)),
    decreases rs.len(),
{
    if rs.len() != 0 && !row_compat(rs[0], r) {
        let d = rs.drop_first();
        lemma_first_compat(d, r);
        assert(forall|k: int| 1 <= k < rs.len() ==> rs[k] == d[k - 1]);
        if first_compat(d, r) != -1 {
            assert(rs[first_compat(rs, r)] == d[first_compat(d, r)]);
        }
    }
}

/// Takes one row into the accumulated rows: merged into the first
/// compatible row, else appended.
pub open spec fn insert_merge(rs: Seq<Seq<JVal>>, r: Seq<JVal>) -> Seq<Seq<JVal>> {
    let k = first_compat(rs, r);
    if k == -1 {
        rs.push(r)
    } else {
        rs.update(k, merge_row(rs[k], r))
    }
}

/// The rows with every repeated observation of the same logical match
/// folded into one, first occurrences keeping their place.
pub open spec fn dedup_rows(s: Seq<Seq<JVal>>) -> Seq<Seq<JVal>>
    decreases s.len(),
{
    if s.len() == 0 {
        Seq::empty()
    } else {
        insert_merge(dedup_rows(s.drop_last()), s.last())
    }
}

/// Byte-string order: shorter-prefix first, else by the first
/// differing byte.
pub open spec fn lex_le(a: Seq<u8>, b: Seq<u8>) -> bool
    decreases a.len(),
{
    if a.len() == 0 {
        true
    } else if b.len() == 0 {
        false
    } else if a[0] < b[0] {
        true
    } else if a[0] > b[0] {
        false
    } else {
        lex_le(a.drop_first(), b.drop_first())
    }
}

/// Rank of a value's type in the sort order; null sorts below
/// everything.
pub open spec fn tag_rank(v: JVal) -> int {
    match v {
        JVal::Null => 0,
        JVal::Bool(_) => 1,
        JVal::Int(_) => 2,
        JVal::Str(_) => 3,
        JVal::Arr(_) => 4,
        JVal::Obj(_) => 5,
    }
}

/// Total preorder on cells: by type rank, then by value for booleans,
/// numbers and text; lists and structs compare equal.
pub open spec fn cell_le(x: JVal, y: JVal) -> bool {
    if tag_rank(x) != tag_rank(y) {
        tag_rank(x) < tag_rank(y)
    } else {
        match x {
            JVal::Bool(bx) => !bx || y->Bool_0,
            JVal::Int(nx) => nx <= y->Int_0,
            JVal::Str(sx) => lex_le(sx, y->Str_0),
            _ => true,
        }
    }
}

/// `cell_le` is total.
pub proof fn lemma_cell_le_total(x: JVal, y: JVal)
    ensures
        cell_le(x, y) || cell_le(y, x),
{
    if tag_rank(x) == tag_rank(y) && x is Str {
        lemma_lex_le_total(x->Str_0, y->Str_0);
    }
}

/// `lex_le` is total.
pub proof fn lemma_lex_le_total(a: Seq<u8>, b: Seq<u8>)
    ensures
        lex_le(a, b) || lex_le(b, a),
    decreases a.len(),
{
    if a.len() != 0 && b.len() != 0 && a[0] == b[0] {
        lemma_lex_le_total(a.drop_first(), b.drop_first());
    }
}

/// `lex_le` is transitive.
pub proof fn lemma_lex_le_trans(a: Seq<u8>, b: Seq<u8>, c: Seq<u8>)
    requires
        lex_le(a, b),
        lex_le(b, c),
    ensures
        lex_le(a, c),
    decreases a.len(),
{
    if a.len() != 0 && b.len() != 0 && c.len() != 0 && a[0] == b[0] && b[0] == c[0] {
        lemma_lex_le_trans(a.drop_first(), b.drop_first(), c.drop_first());
    }
}

/// `cell_le` is transitive.
pub proof fn lemma_cell_le_trans(x: JVal, y: JVal, z: JVal)
    requires
        cell_le(x, y),
        cell_le(y, z),
    ensures
        cell_le(x, z),
{
    if tag_rank(x) == tag_rank(y) && tag_rank(y) == tag_rank(z) && x is Str {
        lemma_lex_le_trans(x->Str_0, y->Str_0, z->Str_0);
    }
}

/// The sort key of a row: its match-time cell, or null when the union
/// schema has no match-time column.
pub open spec fn key_of(row: Seq<JVal>, ti: int) -> JVal {
    if ti == -1 {
        JVal::Null
    } else {
        row[ti]
    }
}

/// Rows sorted by key, descending: every earlier row's key is at least
/// every later one's.
pub open spec fn sorted_desc(s: Seq<Seq<JVal>>, ti: int) -> bool {
    forall|i: int, j: int|
        0 <= i < j < s.len() ==> cell_le(key_of(#[trigger] s[j], ti), key_of(#[trigger] s[i], ti))
}

/// Inserts a row into a descending-sorted sequence, after every row
/// whose key is at least its own: later arrivals with equal keys keep
/// their order.
pub open spec fn insert_desc(s: Seq<Seq<JVal>>, x: Seq<JVal>, ti: int) -> Seq<Seq<JVal>>
    decreases s.len(),
{
    if s.len() == 0 {
        seq![x]
    } else if !cell_le(key_of(x, ti), key_of(s[0], ti)) {
        seq![x] + s
    } else {
        seq![s[0]] + insert_desc(s.drop_first(), x, ti)
    }
}

/// Stable insertion sort by key, descending.
pub open spec fn sort_desc(s: Seq<Seq<JVal>>, ti: int) -> Seq<Seq<JVal>>
    decreases s.len(),
{
    if s.len() == 0 {
        Seq::empty()
    } else {
        insert_desc(sort_desc(s.drop_last(), ti), s.last(), ti)
    }
}

/// What the consolidator returns.
pub open spec fn consolidate_spec(ts: Seq<TableV>) -> TableV {
    let u = union_cols(ts);
    TableV { cols: u, rows: sort_desc(dedup_rows(all_rows(ts, u)), first_idx(u, s_battle_time())) }
}

/// A sequence contains each of its elements.
pub proof fn lemma_rows_contains_intro(s: Seq<Seq<JVal>>, i: int)
    requires
        0 <= i < s.len(),
    ensures
        s.contains(s[i]),
{
}

/// Where a row lands when inserted: after the `p` rows whose keys are
/// at least its own, before the rest.
pub proof fn lemma_insert_desc_at(s: Seq<Seq<JVal>>, x: Seq<JVal>, ti: int, p: int)
    requires
        0 <= p <= s.len(),
        forall|k: int| 0 <= k < p ==> cell_le(key_of(x, ti), key_of(#[trigger] s[k], ti)),
        p < s.len() ==> !cell_le(key_of(x, ti), key_of(s[p], ti)),
    ensures
        insert_desc(s, x, ti) == s.subrange(0, p) + seq![x] + s.subrange(p, s.len() as int),
    decreases p,
{
    if p == 0 {
        assert(insert_desc(s, x, ti) =~= s.subrange(0, 0) + seq![x] + s.subrange(
            0,
            s.len() as int,
        ));
    } else {
        let d = s.drop_first();
        assert(cell_le(key_of(x, ti), key_of(s[0], ti)));
        assert(forall|k: int| 0 <= k < d.len() ==> #[trigger] d[k] == s[k + 1]);
        lemma_insert_desc_at(d, x, ti, p - 1);
        assert(insert_desc(s, x, ti) =~= seq![s[0]] + insert_desc(d, x, ti));
        assert(insert_desc(s, x, ti) =~= s.subrange(0, p) + seq![x] + s.subrange(
            p,
            s.len() as int,
        ));
    }
}

/// Insertion adds exactly the new row to the sequence's contents.
pub proof fn lemma_insert_desc_contains(s: Seq<Seq<JVal>>, x: Seq<JVal>, ti: int, y: Seq<JVal>)
    ensures
        insert_desc(s, x, ti).contains(y) <==> s.contains(y) || y == x,
    decreases s.len(),
{
    let r = insert_desc(s, x, ti);
    if s.len() == 0 {
        if r.contains(y) {
            let w = choose|w: int| 0 <= w < r.len() && r[w] == y;
            assert(y == x);
        }
        if y == x {
            lemma_rows_contains_intro(r, 0);
        }
    } else if !cell_le(key_of(x, ti), key_of(s[0], ti)) {
        assert(r =~= seq![x] + s);
        if r.contains(y) {
            let w = choose|w: int| 0 <= w < r.len() && r[w] == y;
            if w > 0 {
                assert(s[w - 1] == y);
                lemma_rows_contains_intro(s, w - 1);
            }
        }
        if y == x {
            lemma_rows_contains_intro(r, 0);
        } else if s.contains(y) {
            let w = choose|w: int| 0 <= w < s.len() && s[w] == y;
            assert(r[w + 1] == y);
            lemma_rows_contains_intro(r, w + 1);
        }
    } else {
        let d = s.drop_first();
        lemma_insert_desc_contains(d, x, ti, y);
        let rd = insert_desc(d, x, ti);
        assert(r =~= seq![s[0]] + rd);
        if r.contains(y) {
            let w = choose|w: int| 0 <= w < r.len() && r[w] == y;
            if w == 0 {
                lemma_rows_contains_intro(s, 0);
                assert(s[0] == y);
            } else {
                assert(rd[w - 1] == y);
                lemma_rows_contains_intro(rd, w - 1);
                if d.contains(y) {
                    let v = choose|v: int| 0 <= v < d.len() && d[v] == y;
                    assert(s[v + 1] == y);
                    lemma_rows_contains_intro(s, v + 1);
                }
            }
        }
        if y == x {
            assert(rd.contains(y));
            let v = choose|v: int| 0 <= v < rd.len() && rd[v] == y;
            assert(r[v + 1] == y);
            lemma_rows_contains_intro(r, v + 1);
        } else if s.contains(y) {
            let w = choose|w: int| 0 <= w < s.len() && s[w] == y;
            if w == 0 {
                lemma_rows_contains_intro(r, 0);
            } else {
                assert(d[w - 1] == y);
                lemma_rows_contains_intro(d, w - 1);
                assert(rd.contains(y));
                let v = choose|v: int| 0 <= v < rd.len() && rd[v] == y;
                assert(r[v + 1] == y);
                lemma_rows_contains_intro(r, v + 1);
            }
        }
    }
}

/// Sorting neither adds nor loses rows: membership is kept exactly.
pub proof fn lemma_sort_desc_contains(s: Seq<Seq<JVal>>, ti: int, y: Seq<JVal>)
    ensures
        sort_desc(s, ti).contains(y) <==> s.contains(y),
    decreases s.len(),
{
    if s.len() != 0 {
        let d = s.drop_last();
        lemma_sort_desc_contains(d, ti, y);
        lemma_insert_desc_contains(sort_desc(d, ti), s.last(), ti, y);
        if sort_desc(s, ti).contains(y) {
            if d.contains(y) {
                let v = choose|v: int| 0 <= v < d.len() && d[v] == y;
                assert(s[v] == y);
                lemma_rows_contains_intro(s, v);
            } else {
                assert(y == s.last());
                lemma_rows_contains_intro(s, s.len() - 1);
            }
        }
        if s.contains(y) {
            let w = choose|w: int| 0 <= w < s.len() && s[w] == y;
            if w < s.len() - 1 {
                assert(d[w] == y);
                lemma_rows_contains_intro(d, w);
            }
        }
    }
}

/// Inserting into a sorted sequence keeps it sorted.
pub proof fn lemma_insert_desc_sorted(s: Seq<Seq<JVal>>, x: Seq<JVal>, ti: int)
    requires
        sorted_desc(s, ti),
    ensures
        sorted_desc(insert_desc(s, x, ti), ti),
    decreases s.len(),
{
    let r = insert_desc(s, x, ti);
    if s.len() == 0 {
    } else if !cell_le(key_of(x, ti), key_of(s[0], ti)) {
        assert(r =~= seq![x] + s);
        lemma_cell_le_total(key_of(x, ti), key_of(s[0], ti));
        assert forall|i: int, j: int|
            0 <= i < j < r.len() implies cell_le(
            key_of(#[trigger] r[j], ti),
            key_of(#[trigger] r[i], ti),
        ) by {
            if i == 0 {
                assert(r[j] == s[j - 1]);
                if j >= 2 {
                    assert(cell_le(key_of(s[j - 1], ti), key_of(s[0], ti)));
                    lemma_cell_le_trans(key_of(r[j], ti), key_of(s[0], ti), key_of(x, ti));
                }
            } else {
                assert(r[i] == s[i - 1] && r[j] == s[j - 1]);
            }
        }
    } else {
        let d = s.drop_first();
        assert(sorted_desc(d, ti)) by {
            assert(forall|k: int| 0 <= k < d.len() ==> #[trigger] d[k] == s[k + 1]);
        }
        lemma_insert_desc_sorted(d, x, ti);
        let rd = insert_desc(d, x, ti);
        assert(r =~= seq![s[0]] + rd);
        assert forall|i: int, j: int|
            0 <= i < j < r.len() implies cell_le(
            key_of(#[trigger] r[j], ti),
            key_of(#[trigger] r[i], ti),
        ) by {
            if i == 0 {
                assert(r[j] == rd[j - 1]);
                lemma_insert_desc_contains(d, x, ti, rd[j - 1]);
                lemma_rows_contains_intro(rd, j - 1);
                if d.contains(rd[j - 1]) {
                    let v = choose|v: int| 0 <= v < d.len() && d[v] == rd[j - 1];
                    assert(cell_le(key_of(s[v + 1], ti), key_of(s[0], ti)));
                } else {
                    assert(rd[j - 1] == x);
                }
            } else {
                assert(r[i] == rd[i - 1] && r[j] == rd[j - 1]);
            }
        }
    }
}

/// The sort's result is sorted.
pub proof fn lemma_sort_desc_sorted(s: Seq<Seq<JVal>>, ti: int)
    ensures
        sorted_desc(sort_desc(s, ti), ti),
    decreases s.len(),
{
    if s.len() != 0 {
        lemma_sort_desc_sorted(s.drop_last(), ti);
        lemma_insert_desc_sorted(sort_desc(s.drop_last(), ti), s.last(), ti);
    }
}

/// The union schema has pairwise-distinct names.
pub proof fn lemma_union_cols_distinct(ts: Seq<TableV>)
    ensures
        distinct(union_cols(ts)),
    decreases ts.len(),
{
    if ts.len() != 0 {
        lemma_union_cols_distinct(ts.drop_last());
        lemma_add_keys(union_cols(ts.drop_last()), ts.last().cols);
    }
}

/// Copy of a row, cell by cell.
pub fn clone_row(r: &Vec<JsonValue>) -> (out: Vec<JsonValue>)
    ensures
        jview_list(out@) == jview_list(r@),
        out@.len() == r@.len(),
{
    let n = r.len();
    let mut v: Vec<JsonValue> = Vec::new();
    for i in 0..n
        invariant
            n == r.len(),
            v@.len() == i,
            forall|k: int| 0 <= k < i ==> jview(v@[k]) == jview(r@[k]),
    {
        v.push(value_clone(&r[i]));
    }
    proof {
        lemma_jview_list(v@);
        lemma_jview_list(r@);
        assert(jview_list(v@) =~= jview_list(r@));
    }
    v
}

/// Builds the union schema: every column name of every snapshot, in
/// order of first appearance.
pub fn union_schema(tables: &Vec<Table>) -> (u: Vec<Vec<u8>>)
    ensures
        names_view(u@) == union_cols(tables_view(tables@)),
{
    let ghost tvs = tables_view(tables@);
    let nt = tables.len();

    // the union schema, in order of first appearance
    let mut u: Vec<Vec<u8>> = Vec::new();

    for ti in 0..nt
        invariant
            nt == tables.len(),
            tvs == tables_view(tables@),
            tvs.len() == nt,
            names_view(u@) == union_cols(tvs.take(ti as int)),
    {
        let cols = &tables[ti].cols;
        let ghost ksv = tvs[ti as int].cols;
        proof {
            assert(ksv == names_view(cols@));
        }
        let m = cols.len();
        for j in 0..m
            invariant
                nt == tables.len(),
                tvs == tables_view(tables@),
                tvs.len() == nt,
                ti < nt,
                m == cols.len(),
                cols == tables@[ti as int].cols,
                ksv == names_view(cols@),
                ksv.len() == m,
                names_view(u@) == add_keys(union_cols(tvs.take(ti as int)), ksv.take(j as int)),
        {
            let ghost before = names_view(u@);
            proof {
                assert(ksv.take(j as int + 1).drop_last() =~= ksv.take(j as int));
                assert(ksv.take(j as int + 1).last() == ksv[j as int]);
            }
            match find_col(&u, &cols[j]) {
                Some(_) => {
                    proof {
                        lemma_first_idx(before, ksv[j as int]);
                        assert(before.contains(ksv[j as int])) by {
                            let fi = first_idx(before, ksv[j as int]);
                            assert(before[fi] == ksv[j as int]);
                        }
                    }
                },
                None => {
                    u.push(clone_bytes(&cols[j]));
                    proof {
                        lemma_first_idx(before, ksv[j as int]);
                        assert(!before.contains(ksv[j as int])) by {
                            if before.contains(ksv[j as int]) {
                                let w = choose|w: int|
                                    0 <= w < before.len() && before[w] == ksv[j as int];
                                assert(first_idx(before, ksv[j as int]) != -1);
                            }
                        }
                        assert(names_view(u@) =~= before.push(ksv[j as int]));
                    }
                },
            }
        }
        proof {
            assert(ksv.take(m as int) =~= ksv);
            assert(tvs.take(ti as int + 1).drop_last() =~= tvs.take(ti as int));
            assert(tvs.take(ti as int + 1).last() == tvs[ti as int]);
        }
    }
    proof {
        assert(tvs.take(nt as int) =~= tvs);
    }
    u
}

/// Reports, for each union column, which snapshots carry it: the
/// auditable record of schema drift across the snapshot files.
pub fn schema_audit(tables: &Vec<Table>) -> (r: Vec<(Vec<u8>, Vec<bool>)>)
    ensures
        r@.len() == union_cols(tables_view(tables@)).len(),
        forall|j: int|
            0 <= j < r@.len() ==> (#[trigger] r@[j]).0@ == union_cols(tables_view(tables@))[j]
                && r@[j].1@.len() == tables@.len(),
        forall|j: int, i: int|
            0 <= j < r@.len() && 0 <= i < tables@.len() ==> ((#[trigger] r@[j].1@[i]) <==>
            first_idx(tables_view(tables@)[i].cols, union_cols(tables_view(tables@))[j]) != -1),
{
    let ghost tvs = tables_view(tables@);
    let u = union_schema(tables);
    let nu = u.len();
    let nt = tables.len();
    let mut out: Vec<(Vec<u8>, Vec<bool>)> = Vec::new();
    for j in 0..nu
        invariant
            nu == u.len(),
            nt == tables.len(),
            tvs == tables_view(tables@),
            names_view(u@) == union_cols(tvs),
            out@.len() == j,
            forall|p: int|
                0 <= p < j ==> (#[trigger] out@[p]).0@ == union_cols(tvs)[p] && out@[p].1@.len()
                    == nt,
            forall|p: int, i: int|
                0 <= p < j && 0 <= i < nt ==> ((#[trigger] out@[p].1@[i]) <==> first_idx(
                    tvs[i].cols,
                    union_cols(tvs)[p],
                ) != -1),
    {
        let mut present: Vec<bool> = Vec::new();
        for i in 0..nt
            invariant
                nu == u.len(),
                nt == tables.len(),
                j < nu,
                tvs == tables_view(tables@),
                names_view(u@) == union_cols(tvs),
                present@.len() == i,
                forall|q: int|
                    0 <= q < i ==> ((#[trigger] present@[q]) <==> first_idx(
                        tvs[q].cols,
                        union_cols(tvs)[j as int],
                    ) != -1),
        {
            let has = find_col(&tables[i].cols, &u[j]);
            proof {
                assert(tvs[i as int].cols == names_view(tables@[i as int].cols@));
                assert(u@[j as int]@ == union_cols(tvs)[j as int]);
            }
            present.push(has.is_some());
        }
        out.push((clone_bytes(&u[j]), present));
    }
    out
}

/// Whether two rows record the same logical match: every column both
/// hold a value for agrees.
pub fn row_compat_check(a: &Vec<JsonValue>, b: &Vec<JsonValue>) -> (r: bool)
    ensures
        r <==> row_compat(jview_list(a@), jview_list(b@)),
{
    proof {
        lemma_jview_list(a@);
        lemma_jview_list(b@);
    }
    if a.len() != b.len() {
        return false;
    }
    let n = a.len();
    for j in 0..n
        invariant
            n == a.len() == b.len(),
            forall|k: int|
                0 <= k < j ==> (#[trigger] jview_list(a@)[k]) is Null || jview_list(b@)[k] is Null
                    || jview_list(a@)[k] == jview_list(b@)[k],
    {
        proof {
            lemma_jview_list(a@);
            lemma_jview_list(b@);
        }
        let a_null = matches!(&a[j], JsonValue::Null);
        let b_null = matches!(&b[j], JsonValue::Null);
        if !a_null && !b_null && !value_eq(&a[j], &b[j]) {
            proof {
                assert(!(jview_list(a@)[j as int] is Null) && !(jview_list(b@)[j as int] is Null)
                    && jview_list(a@)[j as int] != jview_list(b@)[j as int]);
            }
            return false;
        }
    }
    proof {
        lemma_jview_list(a@);
        lemma_jview_list(b@);
    }
    true
}

/// Byte-string order.
pub fn lex_le_bytes(a: &Vec<u8>, b: &Vec<u8>) -> (r: bool)
    ensures
        r <==> lex_le(a@, b@),
{
    let na = a.len();
    let nb = b.len();
    let mut i: usize = 0;
    proof {
        assert(a@.skip(0) =~= a@);
        assert(b@.skip(0) =~= b@);
    }
    while i < na && i < nb
        invariant
            na == a.len() && nb == b.len(),
            i <= na && i <= nb,
            forall|k: int| 0 <= k < i ==> a@[k] == b@[k],
            lex_le(a@, b@) == lex_le(a@.skip(i as int), b@.skip(i as int)),
        decreases na - i,
    {
        if a[i] < b[i] {
            proof {
                assert(a@.skip(i as int)[0] == a@[i as int]);
                assert(b@.skip(i as int)[0] == b@[i as int]);
            }
            return true;
        }
        if a[i] > b[i] {
            proof {
                assert(a@.skip(i as int)[0] == a@[i as int]);
                assert(b@.skip(i as int)[0] == b@[i as int]);
            }
            return false;
        }
        proof {
            let sa = a@.skip(i as int);
            let sb = b@.skip(i as int);
            assert(sa[0] == a@[i as int]);
            assert(sb[0] == b@[i as int]);
            assert(sa.drop_first() =~= a@.skip(i as int + 1));
            assert(sb.drop_first() =~= b@.skip(i as int + 1));
        }
        i = i + 1;
    }
    proof {
        assert(a@.skip(i as int).len() == na - i);
        assert(b@.skip(i as int).len() == nb - i);
    }
    na <= nb
}

/// Cell order.
pub fn cell_le_value(x: &JsonValue, y: &JsonValue) -> (r: bool)
    ensures
        r <==> cell_le(x@, y@),
{
    let rx = rank_of(x);
    let ry = rank_of(y);
    if rx != ry {
        return rx < ry;
    }
    match (x, y) {
        (JsonValue::Bool(bx), JsonValue::Bool(by)) => !*bx || *by,
        (JsonValue::Int(nx), JsonValue::Int(ny)) => *nx <= *ny,
        (JsonValue::Str(sx), JsonValue::Str(sy)) => lex_le_bytes(sx, sy),
        _ => true,
    }
}

/// Rank of a value's type in the sort order.
fn rank_of(v: &JsonValue) -> (r: u8)
    ensures
        r as int == tag_rank(v@),
{
    match v {
        JsonValue::Null => 0,
        JsonValue::Bool(_) => 1,
        JsonValue::Int(_) => 2,
        JsonValue::Str(_) => 3,
        JsonValue::Arr(_) => 4,
        JsonValue::Obj(_) => 5,
    }
}

/// Whether row `a`'s sort key is at most row `b`'s.
pub fn key_le(a: &Vec<JsonValue>, b: &Vec<JsonValue>, ti: &Option<usize>) -> (r: bool)
    requires
        ti matches Some(k) ==> (k as int) < a@.len() && (k as int) < b@.len(),
    ensures
        r <==> cell_le(
            key_of(jview_list(a@), ti_view(*ti)),
            key_of(jview_list(b@), ti_view(*ti)),
        ),
{
    proof {
        lemma_jview_list(a@);
        lemma_jview_list(b@);
    }
    match ti {
        Some(k) => cell_le_value(&a[*k], &b[*k]),
        None => true,
    }
}

/// The sort-column index an optional find result stands for.
pub open spec fn ti_view(ti: Option<usize>) -> int {
    match ti {
        Option::Some(k) => k as int,
        Option::None => -1,
    }
}

/// Consolidates the snapshots into the canonical table: unions their
/// schemas filling missing columns with null, drops duplicate rows
/// keeping first occurrences, and sorts by match time, descending,
/// stably. With no snapshots the run fails with `EmptyInput`; with two
/// snapshots disagreeing about a column's type, with `SchemaUnion`.
pub fn consolidate(tables: &Vec<Table>) -> (r: Result<Table, PipelineError>)
    requires
        forall|i: int| 0 <= i < tables@.len() ==> (#[trigger] tables@[i])@.wf(),
    ensures
        r is Ok <==> tables@.len() > 0 && union_ok(tables_view(tables@)),
        r matches Ok(out) ==> out@ == consolidate_spec(tables_view(tables@)) && out@.wf(),
        r matches Err(e) ==> (e is EmptyInput <==> tables@.len() == 0),
        r matches Err(e) ==> e is EmptyInput || e is SchemaUnion,
{
    let ghost tvs = tables_view(tables@);
    let nt = tables.len();
    if nt == 0 {
        return Err(PipelineError::EmptyInput);
    }
    let u = union_schema(tables);
    let ghost uv = union_cols(tvs);
    assert(names_view(u@) == uv);
    let nu = u.len();

    // every snapshot's rows, aligned to the union schema
    let mut acc: Vec<Vec<JsonValue>> = Vec::new();
    for ti in 0..nt
        invariant
            nt == tables.len(),
            tvs == tables_view(tables@),
            tvs.len() == nt,
            forall|i: int| 0 <= i < nt ==> (#[trigger] tvs[i]).wf(),
            nu == u.len(),
            names_view(u@) == uv,
            uv == union_cols(tvs),
            rows_view(acc@) == all_rows(tvs.take(ti as int), uv),
            forall|k: int| 0 <= k < acc@.len() ==> (#[trigger] acc@[k])@.len() == nu,
    {
        let tbl = &tables[ti];
        let ghost tvl = tvs[ti as int];
        proof {
            assert(tvl == tbl@);
            assert(tvl.wf());
        }

        // where each union column sits in this snapshot
        let mut idx: Vec<Option<usize>> = Vec::new();
        for j in 0..nu
            invariant
                nu == u.len(),
                names_view(u@) == uv,
                tbl == tables@[ti as int],
                tvl == tbl@,
                idx@.len() == j,
                forall|k: int|
                    0 <= k < j ==> ((#[trigger] idx@[k]) is Some <==> first_idx(tvl.cols, uv[k])
                        != -1) && (idx@[k] matches Some(p) ==> p == first_idx(tvl.cols, uv[k])),
        {
            idx.push(find_col(&tbl.cols, &u[j]));
        }

        let nr = tbl.rows.len();
        let ghost acc_before = rows_view(acc@);
        for ri in 0..nr
            invariant
                nr == tbl.rows.len(),
                nu == u.len(),
                names_view(u@) == uv,
                tbl == tables@[ti as int],
                tvl == tbl@,
                tvl.wf(),
                tvl.rows.len() == nr,
                idx@.len() == nu,
                forall|k: int|
                    0 <= k < nu ==> ((#[trigger] idx@[k]) is Some <==> first_idx(tvl.cols, uv[k])
                        != -1) && (idx@[k] matches Some(p) ==> p == first_idx(tvl.cols, uv[k])),
                acc_before == all_rows(tvs.take(ti as int), uv),
                acc@.len() == acc_before.len() + ri as int,
                rows_view(acc@) =~= acc_before + aligned_rows(tvl, uv).take(ri as int),
                forall|k: int| 0 <= k < acc@.len() ==> (#[trigger] acc@[k])@.len() == nu,
        {
            proof {
                lemma_jview_list(tbl.rows@[ri as int]@);
                assert(tvl.rows[ri as int].len() == tvl.cols.len());
            }
            let row = &tbl.rows[ri];
            let mut nrow: Vec<JsonValue> = Vec::new();
            for j in 0..nu
                invariant
                    nu == u.len(),
                    names_view(u@) == uv,
                    tvl.wf(),
                    ri < nr && nr == tbl.rows.len(),
                    row == tbl.rows@[ri as int],
                    tbl == tables@[ti as int],
                    tvl == tbl@,
                    tvl.rows.len() == nr,
                    tvl.rows[ri as int] == jview_list(row@),
                    tvl.rows[ri as int].len() == tvl.cols.len(),
                    idx@.len() == nu,
                    forall|k: int|
                        0 <= k < nu ==> ((#[trigger] idx@[k]) is Some <==> first_idx(
                            tvl.cols,
                            uv[k],
                        ) != -1) && (idx@[k] matches Some(p) ==> p == first_idx(tvl.cols, uv[k])),
                    nrow@.len() == j,
                    forall|k: int|
                        0 <= k < j ==> jview(#[trigger] nrow@[k]) == align_cell(
                            tvl,
                            ri as int,
                            uv[k],
                        ),
            {
                proof {
                    lemma_jview_list(row@);
                    if first_idx(tvl.cols, uv[j as int]) != -1 {
                        lemma_first_idx(tvl.cols, uv[j as int]);
                    }
                }
                match &idx[j] {
                    Some(k) => {
                        nrow.push(value_clone(&row[*k]));
                    },
                    None => {
                        nrow.push(JsonValue::Null);
                    },
                }
            }
            proof {
                lemma_jview_list(nrow@);
                assert(jview_list(nrow@) =~= aligned_rows(tvl, uv)[ri as int]);
            }
            acc.push(nrow);
            proof {
                let lhs = rows_view(acc@);
                let rhs = acc_before + aligned_rows(tvl, uv).take(ri as int + 1);
                assert(lhs.len() == rhs.len());
                assert forall|k: int| 0 <= k < lhs.len() implies lhs[k] == rhs[k] by {
                    if k < acc_before.len() + ri as int {
                        assert(lhs[k] == rows_view(acc@.drop_last())[k]);
                        assert(rhs[k] == (acc_before + aligned_rows(tvl, uv).take(ri as int))[k]);
                    } else {
                        assert(lhs[k] == jview_list(nrow@));
                        assert(rhs[k] == aligned_rows(tvl, uv)[ri as int]);
                    }
                }
                assert(lhs =~= rhs);
            }
        }
        proof {
            assert(aligned_rows(tvl, uv).take(nr as int) =~= aligned_rows(tvl, uv));
            assert(tvs.take(ti as int + 1).drop_last() =~= tvs.take(ti as int));
            assert(tvs.take(ti as int + 1).last() == tvl);
            assert(rows_view(acc@) =~= all_rows(tvs.take(ti as int + 1), uv));
        }
    }
    proof {
        assert(tvs.take(nt as int) =~= tvs);
    }
    let ghost allv = all_rows(tvs, uv);
    assert(rows_view(acc@) == allv);
    let nall = acc.len();

    // one consistent type per union column
    for j in 0..nu
        invariant
            nu == u.len(),
            names_view(u@) == uv,
            uv == union_cols(tvs),
            tvs == tables_view(tables@),
            tvs.len() == nt && nt == tables.len() && nt > 0,
            nall == acc.len(),
            rows_view(acc@) == allv,
            allv == all_rows(tvs, uv),
            allv.len() == nall,
            forall|k: int| 0 <= k < acc@.len() ==> (#[trigger] acc@[k])@.len() == nu,
            forall|k: int| 0 <= k < j ==> col_consistent(allv, k),
    {
        let mut seen: Option<Tag> = None;
        for i in 0..nall
            invariant
                nu == u.len(),
                nall == acc.len(),
                rows_view(acc@) == allv,
                allv.len() == nall,
                j < nu,
                names_view(u@) == uv,
                uv == union_cols(tvs),
                allv == all_rows(tvs, uv),
                tvs == tables_view(tables@),
                tvs.len() == nt && nt == tables.len() && nt > 0,
                forall|k: int| 0 <= k < acc@.len() ==> (#[trigger] acc@[k])@.len() == nu,
                seen is None ==> forall|k: int| 0 <= k < i ==> (#[trigger] allv[k][j as int])
                    is Null,
                seen matches Some(tg) ==> exists|k: int|
                    0 <= k < i && !((#[trigger] allv[k][j as int]) is Null) && tag_of(
                        allv[k][j as int],
                    ) == tg,
                seen matches Some(tg) ==> forall|k: int|
                    0 <= k < i && !((#[trigger] allv[k][j as int]) is Null) ==> tag_of(
                        allv[k][j as int],
                    ) == tg,
        {
            proof {
                lemma_jview_list(acc@[i as int]@);
                assert(allv[i as int][j as int] == jview(acc@[i as int]@[j as int]));
            }
            let cell_tag = tag_of_value(&acc[i][j]);
            if !matches!(cell_tag, Tag::Null) {
                match seen {
                    None => {
                        seen = Some(cell_tag);
                    },
                    Some(tg) => {
                        if cell_tag != tg {
                            proof {
                                let w = choose|k: int|
                                    0 <= k < i && !((#[trigger] allv[k][j as int]) is Null)
                                        && tag_of(allv[k][j as int]) == tg;
                                assert(!col_consistent(allv, j as int)) by {
                                    if col_consistent(allv, j as int) {
                                        assert(tag_of(allv[w][j as int]) == tag_of(
                                            allv[i as int][j as int],
                                        ));
                                    }
                                }
                                assert(!table_consistent(allv, uv.len() as int)) by {
                                    if table_consistent(allv, uv.len() as int) {
                                        assert(col_consistent(allv, j as int));
                                    }
                                }
                                assert(!union_ok(tvs));
                            }
                            return Err(PipelineError::SchemaUnion { column: clone_bytes(&u[j]) });
                        }
                    },
                }
            }
        }
    }
    assert(union_ok(tvs));

    // fold repeated observations of the same logical match into one
    let ghost dedv = dedup_rows(allv);
    let mut ded: Vec<Vec<JsonValue>> = Vec::new();
    for i in 0..nall
        invariant
            nall == acc.len(),
            nu == u.len(),
            rows_view(acc@) == allv,
            allv.len() == nall,
            forall|k: int| 0 <= k < acc@.len() ==> (#[trigger] acc@[k])@.len() == nu,
            rows_view(ded@) == dedup_rows(allv.take(i as int)),
            forall|k: int| 0 <= k < ded@.len() ==> (#[trigger] ded@[k])@.len() == nu,
    {
        let ghost pre = dedup_rows(allv.take(i as int));
        let ghost rv = allv[i as int];
        proof {
            assert(allv.take(i as int + 1).drop_last() =~= allv.take(i as int));
            assert(allv.take(i as int + 1).last() == rv);
            assert(rv == jview_list(acc@[i as int]@));
            lemma_first_compat(pre, rv);
        }
        let row = &acc[i];
        let nd0 = ded.len();
        let mut found: Option<usize> = None;
        for k in 0..nd0
            invariant
                nd0 == ded.len(),
                rows_view(ded@) == pre,
                rv == jview_list(acc@[i as int]@),
                i < nall && nall == acc.len(),
                row == acc@[i as int],
                found is None ==> forall|p: int| 0 <= p < k ==> !row_compat(
                    #[trigger] pre[p],
                    rv,
                ),
                found matches Some(fk) ==> fk < k && row_compat(pre[fk as int], rv) && (forall|
                    p: int,
                |
                    0 <= p < fk ==> !row_compat(#[trigger] pre[p], rv)),
        {
            if found.is_none() {
                if row_compat_check(&ded[k], row) {
                    proof {
                        assert(pre[k as int] == jview_list(ded@[k as int]@));
                    }
                    found = Some(k);
                }
            }
        }
        match found {
            None => {
                proof {
                    lemma_first_compat(pre, rv);
                    assert(first_compat(pre, rv) == -1);
                }
                let nrow = clone_row(row);
                ded.push(nrow);
                proof {
                    assert(rows_view(ded@) =~= pre.push(rv));
                    assert(rows_view(ded@) =~= dedup_rows(allv.take(i as int + 1)));
                }
            },
            Some(k) => {
                proof {
                    lemma_first_compat(pre, rv);
                    assert(first_compat(pre, rv) == k as int);
                    lemma_jview_list(acc@[i as int]@);
                    assert(pre[k as int] == jview_list(ded@[k as int]@));
                }
                let mut m: Vec<JsonValue> = Vec::new();
                for j in 0..nu
                    invariant
                        nu == u.len(),
                        k < ded.len(),
                        i < nall && nall == acc.len(),
                        row == acc@[i as int],
                        rv == jview_list(acc@[i as int]@),
                        rv.len() == nu,
                        ded@[k as int]@.len() == nu,
                        rows_view(ded@) == pre,
                        m@.len() == j,
                        forall|p: int|
                            0 <= p < j ==> jview(#[trigger] m@[p]) == merge_row(
                                pre[k as int],
                                rv,
                            )[p],
                {
                    proof {
                        lemma_jview_list(ded@[k as int]@);
                        lemma_jview_list(acc@[i as int]@);
                        assert(pre[k as int] == jview_list(ded@[k as int]@));
                    }
                    if matches!(&ded[k][j], JsonValue::Null) {
                        m.push(value_clone(&row[j]));
                    } else {
                        m.push(value_clone(&ded[k][j]));
                    }
                }
                proof {
                    lemma_jview_list(m@);
                    assert(jview_list(m@) =~= merge_row(pre[k as int], rv));
                }
                let ghost pre_ded = ded@;
                ded[k] = m;
                proof {
                    assert(ded@ == pre_ded.update(k as int, ded@[k as int]));
                    assert(rows_view(ded@) =~= pre.update(k as int, merge_row(pre[k as int], rv)));
                    assert(rows_view(ded@) =~= dedup_rows(allv.take(i as int + 1)));
                }
            },
        }
    }
    proof {
        assert(allv.take(nall as int) =~= allv);
    }
    assert(rows_view(ded@) == dedv);

    // sort by match time, descending, stably
    let bt_name = name_battle_time();
    let time_col: Option<usize> = find_col(&u, &bt_name);
    let ghost tix = first_idx(uv, s_battle_time());
    proof {
        lemma_first_idx(uv, s_battle_time());
        assert(ti_view(time_col) == tix);
    }
    let nd = ded.len();
    let mut sorted: Vec<Vec<JsonValue>> = Vec::new();
    for i in 0..nd
        invariant
            nd == ded.len(),
            nu == u.len(),
            rows_view(ded@) == dedv,
            dedv.len() == nd,
            time_col matches Some(k) ==> k as int == tix && (k as int) < nu,
            time_col is None ==> tix == -1,
            forall|k: int| 0 <= k < ded@.len() ==> (#[trigger] ded@[k])@.len() == nu,
            sorted@.len() == i,
            forall|k: int| 0 <= k < sorted@.len() ==> (#[trigger] sorted@[k])@.len() == nu,
            rows_view(sorted@) == sort_desc(dedv.take(i as int), tix),
    {
        let row = clone_row(&ded[i]);
        let ghost rv = dedup_rows(allv)[i as int];
        proof {
            assert(jview_list(row@) == dedv[i as int]);
            lemma_sort_desc_sorted(dedv.take(i as int), tix);
        }
        let mut p: usize = 0;
        while p < sorted.len() && key_le(&row, &sorted[p], &time_col)
            invariant
                sorted@.len() == i,
                nu == u.len(),
                time_col matches Some(k) ==> k as int == tix && (k as int) < nu,
                time_col is None ==> tix == -1,
                row@.len() == nu,
                jview_list(row@) == dedv[i as int],
                i <= nd && dedv.len() == nd,
                forall|k: int| 0 <= k < sorted@.len() ==> (#[trigger] sorted@[k])@.len() == nu,
                rows_view(sorted@) == sort_desc(dedv.take(i as int), tix),
                p <= sorted@.len(),
                forall|k: int|
                    0 <= k < p ==> cell_le(
                        key_of(dedv[i as int], tix),
                        key_of(#[trigger] rows_view(sorted@)[k], tix),
                    ),
            decreases sorted@.len() - p,
        {
            proof {
                assert(rows_view(sorted@)[p as int] == jview_list(sorted@[p as int]@));
            }
            p = p + 1;
        }
        proof {
            let sv = rows_view(sorted@);
            if (p as int) < sv.len() {
                assert(sv[p as int] == jview_list(sorted@[p as int]@));
            }
            lemma_insert_desc_at(sv, dedv[i as int], tix, p as int);
        }
        let ghost pre_sorted = sorted@;
        sorted.insert(p, row);
        proof {
            assert(sorted@ == pre_sorted.insert(p as int, row));
            let sv_old = sort_desc(dedv.take(i as int), tix);
            let lhs = rows_view(sorted@);
            let rhs = sv_old.subrange(0, p as int) + seq![dedv[i as int]] + sv_old.subrange(
                p as int,
                sv_old.len() as int,
            );
            assert(sorted@ =~= pre_sorted.subrange(0, p as int) + seq![row] + pre_sorted.subrange(
                p as int,
                pre_sorted.len() as int,
            ));
            assert(lhs.len() == rhs.len());
            assert forall|k: int| 0 <= k < lhs.len() implies lhs[k] == rhs[k] by {
                if k < p as int {
                    assert(sorted@[k] == pre_sorted[k]);
                    assert(lhs[k] == rows_view(pre_sorted)[k]);
                } else if k == p as int {
                    assert(sorted@[k] == row);
                    assert(lhs[k] == jview_list(row@));
                } else {
                    assert(sorted@[k] == pre_sorted[k - 1]);
                    assert(lhs[k] == rows_view(pre_sorted)[k - 1]);
                }
            }
            assert(lhs =~= rhs);
            assert(dedv.take(i as int + 1).drop_last() =~= dedv.take(i as int));
            assert(dedv.take(i as int + 1).last() == dedv[i as int]);
            assert(rows_view(sorted@) == sort_desc(dedv.take(i as int + 1), tix));
        }
    }
    proof {
        assert(dedv.take(nd as int) =~= dedv);
    }

    let out = Table { cols: u, rows: sorted };
    proof {
        assert(out@.cols == uv);
        assert(out@.rows == sort_desc(dedv, tix));
        assert(out@ =~= consolidate_spec(tvs));
        lemma_union_cols_distinct(tvs);
        assert(out@.wf()) by {
            assert forall|i: int|
                0 <= i < out@.rows.len() implies (#[trigger] out@.rows[i]).len()
                == out@.cols.len() by {
                lemma_jview_list(sorted@[i]@);
                assert(out@.rows[i] == jview_list(sorted@[i]@));
                assert(sorted@[i]@.len() == nu);
            }
        }
    }
    Ok(out)
}

} // verus!
