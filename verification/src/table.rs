//! In-memory tables: a flat list of named columns and a list of rows.
//! Also the builder that turns a parsed JSON battle-log payload into a
//! table, one row per record, inferring one consistent type per column.

use vstd::prelude::*;

use crate::value::JVal;
use crate::value::JsonValue;
use crate::value::jview;
use crate::value::jview_list;
use crate::value::jview_fields;
use crate::value::lemma_jview_list;
use crate::value::lemma_jview_fields;
use crate::value::compare_bytes;
use crate::value::clone_bytes;
use crate::value::value_clone;
use crate::PipelineError;

verus! {

/// Mathematical model of a table: column names and rows of cells.
#[verifier::ext_equal]
pub struct TableV {
    pub cols: Seq<Seq<u8>>,
    pub rows: Seq<Seq<JVal>>,
}

impl TableV {
    /// Every row has one cell per column, and column names are unique.
    pub open spec fn wf(self) -> bool {
        &&& forall|i: int| 0 <= i < self.rows.len() ==> (#[trigger] self.rows[i]).len()
            == self.cols.len()
        &&& forall|i: int, j: int| 0 <= i < j < self.cols.len() ==> self.cols[i] != self.cols[j]
    }
}

/// An in-memory table. Each row holds one cell per column.
pub struct Table {
    pub cols: Vec<Vec<u8>>,
    pub rows: Vec<Vec<JsonValue>>,
}

/// Model of a list of column names.
pub open spec fn names_view(cols: Seq<Vec<u8>>) -> Seq<Seq<u8>> {
    Seq::new(cols.len(), |i: int| cols[i]@)
}

/// Model of a list of rows.
pub open spec fn rows_view(rows: Seq<Vec<JsonValue>>) -> Seq<Seq<JVal>> {
    Seq::new(rows.len(), |i: int| jview_list(rows[i]@))
}

impl View for Table {
    type V = TableV;

    open spec fn view(&self) -> TableV {
        TableV { cols: names_view(self.cols@), rows: rows_view(self.rows@) }
    }
}

/// Index of the first column with the given name, or -1 if absent.
pub open spec fn first_idx(cols: Seq<Seq<u8>>, name: Seq<u8>) -> int
    decreases cols.len(),
{
    if cols.len() == 0 {
        -1
    } else if cols[0] == name {
        0
    } else {
        let r = first_idx(cols.drop_first(), name);
        if r == -1 {
            -1
        } else {
            r + 1
        }
    }
}

/// What `first_idx` returns: -1 exactly when the name is absent, else
/// the position of its first occurrence.
pub broadcast proof fn lemma_first_idx(cols: Seq<Seq<u8>>, name: Seq<u8>)
    ensures
        (#[trigger] first_idx(cols, name)) == -1 <==> (forall|k: int|
            0 <= k < cols.len() ==> cols[k] != name),
        first_idx(cols, name) != -1 ==> 0 <= first_idx(cols, name) < cols.len() && cols[first_idx(
            cols,
            name,
        )] == name && (forall|k: int| 0 <= k < first_idx(cols, name) ==> cols[k] != name),
    decreases cols.len(),
{
    if cols.len() != 0 && cols[0] != name {
        let d = cols.drop_first();
        lemma_first_idx(d, name);
        assert(forall|k: int| 1 <= k < cols.len() ==> cols[k] == d[k - 1]);
        if first_idx(d, name) != -1 {
            assert(cols[first_idx(cols, name)] == d[first_idx(d, name)]);
        }
    }
}

/// A name's position determines `first_idx`: if the name stands at `p`
/// and nowhere earlier, `first_idx` is `p`.
pub proof fn lemma_first_idx_unique(cols: Seq<Seq<u8>>, name: Seq<u8>, p: int)
    requires
        0 <= p < cols.len(),
        cols[p] == name,
        forall|k: int| 0 <= k < p ==> cols[k] != name,
    ensures
        first_idx(cols, name) == p,
{
    lemma_first_idx(cols, name);
    let fi = first_idx(cols, name);
    if fi == -1 {
        assert(cols[p] != name);
    } else {
        if fi < p {
            assert(cols[fi] != name);
        }
        if p < fi {
            assert(cols[p] != name);
        }
    }
}

/// Finds the first column with the given name.
pub fn find_col(cols: &Vec<Vec<u8>>, name: &Vec<u8>) -> (r: Option<usize>)
    ensures
        r is Some <==> first_idx(names_view(cols@), name@) != -1,
        r matches Some(i) ==> i == first_idx(names_view(cols@), name@),
{
    proof {
        lemma_first_idx(names_view(cols@), name@);
    }
    let n = cols.len();
    for i in 0..n
        invariant
            n == cols.len(),
            forall|k: int| 0 <= k < i ==> names_view(cols@)[k] != name@,
    {
        if compare_bytes(&cols[i], name) {
            proof {
                let nv = names_view(cols@);
                assert(nv[i as int] == name@);
                lemma_first_idx(nv, name@);
                let fi = first_idx(nv, name@);
                assert(fi != -1);
                assert(fi == i as int) by {
                    if fi < i as int {
                        assert(nv[fi] != name@);
                    }
                }
            }
            return Some(i);
        }
    }
    proof {
        lemma_first_idx(names_view(cols@), name@);
    }
    None
}

/// The field names of a record; empty when the record is not an object.
pub open spec fn rec_keys(r: JVal) -> Seq<Seq<u8>> {
    if r is Obj {
        Seq::new(r->Obj_0.len(), |i: int| r->Obj_0[i].0)
    } else {
        Seq::empty()
    }
}

/// Appends, in order, the keys of `ks` that `acc` does not yet hold.
pub open spec fn add_keys(acc: Seq<Seq<u8>>, ks: Seq<Seq<u8>>) -> Seq<Seq<u8>>
    decreases ks.len(),
{
    if ks.len() == 0 {
        acc
    } else {
        let prev = add_keys(acc, ks.drop_last());
        if prev.contains(ks.last()) {
            prev
        } else {
            prev.push(ks.last())
        }
    }
}

/// The column list of a record sequence: every key, in order of first
/// appearance.
pub open spec fn cols_spec(recs: Seq<JVal>) -> Seq<Seq<u8>>
    decreases recs.len(),
{
    if recs.len() == 0 {
        Seq::empty()
    } else {
        add_keys(cols_spec(recs.drop_last()), rec_keys(recs.last()))
    }
}

/// Value of the first field with the given name, or null.
pub open spec fn get_field(fs: Seq<(Seq<u8>, JVal)>, name: Seq<u8>) -> JVal
    decreases fs.len(),
{
    if fs.len() == 0 {
        JVal::Null
    } else if fs[0].0 == name {
        fs[0].1
    } else {
        get_field(fs.drop_first(), name)
    }
}

/// The cell a record contributes to the given column.
pub open spec fn cell_of(r: JVal, name: Seq<u8>) -> JVal {
    if r is Obj {
        get_field(r->Obj_0, name)
    } else {
        JVal::Null
    }
}

/// The rows of the table built from the records, one row per record,
/// one cell per column.
pub open spec fn rows_spec(recs: Seq<JVal>, cols: Seq<Seq<u8>>) -> Seq<Seq<JVal>> {
    Seq::new(recs.len(), |i: int| Seq::new(cols.len(), |j: int| cell_of(recs[i], cols[j])))
}

/// The top-level type of a value.
#[derive(PartialEq, Eq, Structural, Clone, Copy, Debug)]
pub enum Tag {
    Null,
    Bool,
    Int,
    Str,
    Arr,
    Obj,
}

/// The top-level type of a value, as a spec function.
pub open spec fn tag_of(v: JVal) -> Tag {
    match v {
        JVal::Null => Tag::Null,
        JVal::Bool(_) => Tag::Bool,
        JVal::Int(_) => Tag::Int,
        JVal::Str(_) => Tag::Str,
        JVal::Arr(_) => Tag::Arr,
        JVal::Obj(_) => Tag::Obj,
    }
}

/// The top-level type of a value.
pub fn tag_of_value(v: &JsonValue) -> (t: Tag)
    ensures
        t == tag_of(v@),
{
    match v {
        JsonValue::Null => Tag::Null,
        JsonValue::Bool(_) => Tag::Bool,
        JsonValue::Int(_) => Tag::Int,
        JsonValue::Str(_) => Tag::Str,
        JsonValue::Arr(_) => Tag::Arr,
        JsonValue::Obj(_) => Tag::Obj,
    }
}

/// All non-null cells of column `j` share one type.
pub open spec fn col_consistent(rows: Seq<Seq<JVal>>, j: int) -> bool {
    forall|i1: int, i2: int|
        0 <= i1 < rows.len() && 0 <= i2 < rows.len() && !(#[trigger] rows[i1][j] is Null) && !(
        #[trigger] rows[i2][j] is Null) ==> tag_of(rows[i1][j]) == tag_of(rows[i2][j])
}

/// Every column's non-null cells share one type.
pub open spec fn table_consistent(rows: Seq<Seq<JVal>>, ncols: int) -> bool {
    forall|j: int| 0 <= j < ncols ==> #[trigger] col_consistent(rows, j)
}

/// The value of the first array-valued field, if any.
pub open spec fn first_arr_field(fs: Seq<(Seq<u8>, JVal)>) -> Option<Seq<JVal>>
    decreases fs.len(),
{
    if fs.len() == 0 {
        Option::None
    } else if fs[0].1 is Arr {
        Option::Some(fs[0].1->Arr_0)
    } else {
        first_arr_field(fs.drop_first())
    }
}

/// The record array a payload carries: the payload itself when it is an
/// array, else its first array-valued field when it is an object.
pub open spec fn records_of(v: JVal) -> Option<Seq<JVal>> {
    match v {
        JVal::Arr(xs) => Option::Some(xs),
        JVal::Obj(fs) => first_arr_field(fs),
        _ => Option::None,
    }
}

/// Every record in the sequence is an object.
pub open spec fn all_objects(recs: Seq<JVal>) -> bool {
    forall|i: int| 0 <= i < recs.len() ==> (#[trigger] recs[i]) is Obj
}

/// A payload has table shape: it carries a record array whose records
/// are all objects.
pub open spec fn shape_ok(v: JVal) -> bool {
    &&& records_of(v) is Some
    &&& all_objects(records_of(v)->Some_0)
}

/// The records of a payload of table shape.
pub open spec fn recs_of(v: JVal) -> Seq<JVal> {
    records_of(v)->Some_0
}

/// Pairwise-distinct names.
pub open spec fn distinct(s: Seq<Seq<u8>>) -> bool {
    forall|i: int, j: int| 0 <= i < j < s.len() ==> s[i] != s[j]
}

/// `add_keys` keeps the accumulator as a prefix, keeps distinctness,
/// and afterwards holds exactly the old names and the new keys.
pub proof fn lemma_add_keys(acc: Seq<Seq<u8>>, ks: Seq<Seq<u8>>)
    ensures
        acc.len() <= add_keys(acc, ks).len(),
        forall|i: int| 0 <= i < acc.len() ==> add_keys(acc, ks)[i] == acc[i],
        distinct(acc) ==> distinct(add_keys(acc, ks)),
        forall|n: Seq<u8>| add_keys(acc, ks).contains(n) <==> acc.contains(n) || ks.contains(n),
    decreases ks.len(),
{
    if ks.len() != 0 {
        lemma_add_keys(acc, ks.drop_last());
        let prev = add_keys(acc, ks.drop_last());
        let res = add_keys(acc, ks);
        let lastk = ks.last();
        assert forall|n: Seq<u8>| res.contains(n) implies acc.contains(n) || ks.contains(n) by {
            let w = choose|w: int| 0 <= w < res.len() && res[w] == n;
            if w < prev.len() {
                assert(prev[w] == n);
                assert(prev.contains(n));
                if ks.drop_last().contains(n) {
                    let u = choose|u: int|
                        0 <= u < ks.drop_last().len() && ks.drop_last()[u] == n;
                    assert(ks[u] == n);
                    assert(ks.contains(n));
                }
            } else {
                assert(n == lastk);
                assert(ks[ks.len() - 1] == n);
                assert(ks.contains(n));
            }
        }
        assert forall|n: Seq<u8>| acc.contains(n) || ks.contains(n) implies res.contains(n) by {
            if acc.contains(n) || ks.drop_last().contains(n) {
                assert(prev.contains(n));
                let p = choose|p: int| 0 <= p < prev.len() && prev[p] == n;
                assert(res[p] == n);
                assert(res.contains(n));
            } else {
                let u = choose|u: int| 0 <= u < ks.len() && ks[u] == n;
                assert(u == ks.len() - 1) by {
                    if u < ks.len() - 1 {
                        assert(ks.drop_last()[u] == n);
                    }
                }
                assert(n == lastk);
                if prev.contains(lastk) {
                    let p = choose|p: int| 0 <= p < prev.len() && prev[p] == lastk;
                    assert(res[p] == n);
                    assert(res.contains(n));
                } else {
                    assert(res[prev.len() as int] == n);
                    assert(res.contains(n));
                }
            }
        }
        if distinct(acc) {
            assert(distinct(prev));
            if !prev.contains(ks.last()) {
                assert forall|i: int, j: int|
                    0 <= i < j < add_keys(acc, ks).len() implies add_keys(acc, ks)[i] != add_keys(
                    acc,
                    ks,
                )[j] by {
                    if j == add_keys(acc, ks).len() - 1 {
                        assert(!prev.contains(add_keys(acc, ks)[j]));
                        if add_keys(acc, ks)[i] == add_keys(acc, ks)[j] {
                            assert(prev[i] == add_keys(acc, ks)[j]);
                        }
                    }
                }
            }
        }
    }
}

/// The column list of a record sequence has pairwise-distinct names.
pub proof fn lemma_cols_spec_distinct(recs: Seq<JVal>)
    ensures
        distinct(cols_spec(recs)),
    decreases recs.len(),
{
    if recs.len() != 0 {
        lemma_cols_spec_distinct(recs.drop_last());
        lemma_add_keys(cols_spec(recs.drop_last()), rec_keys(recs.last()));
    }
}

/// Skipping fields that do not match leaves `get_field` unchanged.
pub proof fn lemma_get_field_skip(fs: Seq<(Seq<u8>, JVal)>, name: Seq<u8>, i: int)
    requires
        0 <= i <= fs.len(),
        forall|k: int| 0 <= k < i ==> fs[k].0 != name,
    ensures
        get_field(fs, name) == get_field(fs.skip(i), name),
    decreases i,
{
    if i > 0 {
        let d = fs.drop_first();
        lemma_get_field_skip(d, name, i - 1);
        assert(d.skip(i - 1) =~= fs.skip(i));
    } else {
        assert(fs.skip(0) =~= fs);
    }
}

/// Skipping fields that are not arrays leaves `first_arr_field`
/// unchanged.
pub proof fn lemma_first_arr_skip(fs: Seq<(Seq<u8>, JVal)>, i: int)
    requires
        0 <= i <= fs.len(),
        forall|k: int| 0 <= k < i ==> !((#[trigger] fs[k]).1 is Arr),
    ensures
        first_arr_field(fs) == first_arr_field(fs.skip(i)),
    decreases i,
{
    if i > 0 {
        let d = fs.drop_first();
        lemma_first_arr_skip(d, i - 1);
        assert(d.skip(i - 1) =~= fs.skip(i));
    } else {
        assert(fs.skip(0) =~= fs);
    }
}

/// Returns a copy of the value of the first field with the given name,
/// or null when no field has it.
pub fn get_cell(fs: &Vec<(Vec<u8>, JsonValue)>, name: &Vec<u8>) -> (r: JsonValue)
    ensures
        r@ == get_field(jview_fields(fs@), name@),
{
    let ghost fv = jview_fields(fs@);
    proof {
        lemma_jview_fields(fs@);
    }
    let n = fs.len();
    for i in 0..n
        invariant
            n == fs.len(),
            fv == jview_fields(fs@),
            fv.len() == n,
            forall|k: int| 0 <= k < i ==> (#[trigger] fv[k]).0 != name@,
    {
        proof {
            lemma_jview_fields(fs@);
        }
        if compare_bytes(&fs[i].0, name) {
            proof {
                lemma_get_field_skip(fv, name@, i as int);
                assert(fv.skip(i as int)[0] == fv[i as int]);
                assert(get_field(fv, name@) == fv[i as int].1);
            }
            return value_clone(&fs[i].1);
        }
    }
    proof {
        lemma_get_field_skip(fv, name@, n as int);
        assert(fv.skip(n as int).len() == 0);
    }
    JsonValue::Null
}

/// Builds a table from a parsed battle-log payload: one row per record,
/// one column per distinct key in order of first appearance, missing
/// keys filled with null. Fails with `Parse` when the payload does not
/// have table shape, and with `SchemaInference` when two rows disagree
/// about a column's type.
pub fn records_to_table(v: &JsonValue) -> (r: Result<Table, PipelineError>)
    ensures
        r is Ok <==> shape_ok(v@) && table_consistent(
            rows_spec(recs_of(v@), cols_spec(recs_of(v@))),
            cols_spec(recs_of(v@)).len() as int,
        ),
        r matches Err(e) ==> (e is Parse <==> !shape_ok(v@)),
        r matches Err(e) ==> e is Parse || e is SchemaInference,
        r matches Ok(t) ==> {
            &&& t@.cols == cols_spec(recs_of(v@))
            &&& t@.rows == rows_spec(recs_of(v@), cols_spec(recs_of(v@)))
            &&& t@.rows.len() == recs_of(v@).len()
            &&& t@.wf()
        },
{
    let xs: &Vec<JsonValue> = match v {
        JsonValue::Arr(xs) => xs,
        JsonValue::Obj(fs) => {
            let ghost fv = jview_fields(fs@);
            proof {
                lemma_jview_fields(fs@);
            }
            let n = fs.len();
            let mut found: Option<usize> = None;
            for i in 0..n
                invariant
                    n == fs.len(),
                    fv == jview_fields(fs@),
                    fv.len() == n,
                    found is None ==> forall|k: int| 0 <= k < i ==> !((#[trigger] fv[k]).1 is Arr),
                    found matches Some(fi) ==> fi < i && fv[fi as int].1 is Arr && (forall|k: int|
                        0 <= k < fi ==> !((#[trigger] fv[k]).1 is Arr)),
            {
                proof {
                    lemma_jview_fields(fs@);
                }
                if found.is_none() {
                    match &fs[i].1 {
                        JsonValue::Arr(_) => {
                            found = Some(i);
                            proof {
                                assert(fv[i as int].1 is Arr);
                            }
                        },
                        _ => {
                            proof {
                                assert(!(fv[i as int].1 is Arr));
                            }
                        },
                    }
                }
            }
            match found {
                Some(i) => {
                    proof {
                        lemma_first_arr_skip(fv, i as int);
                        assert(fv.skip(i as int)[0] == fv[i as int]);
                    }
                    match &fs[i].1 {
                        JsonValue::Arr(inner) => inner,
                        _ => {
                            proof {
                                assert(false);
                            }
                            return Err(PipelineError::Parse { offset: 0 });
                        },
                    }
                },
                None => {
                    proof {
                        lemma_first_arr_skip(fv, n as int);
                        assert(fv.skip(n as int).len() == 0);
                    }
                    return Err(PipelineError::Parse { offset: 0 });
                },
            }
        },
        _ => {
            return Err(PipelineError::Parse { offset: 0 });
        },
    };
    let ghost recs = recs_of(v@);
    proof {
        lemma_jview_list(xs@);
        assert(recs == jview_list(xs@));
    }
    let n = xs.len();

    // every record must be an object
    for i in 0..n
        invariant
            n == xs.len(),
            recs == jview_list(xs@),
            recs.len() == n,
            recs == recs_of(v@) && records_of(v@) is Some,
            forall|k: int| 0 <= k < i ==> (#[trigger] recs[k]) is Obj,
    {
        proof {
            lemma_jview_list(xs@);
        }
        match &xs[i] {
            JsonValue::Obj(_) => {},
            _ => {
                proof {
                    assert(!(recs[i as int] is Obj));
                }
                return Err(PipelineError::Parse { offset: 0 });
            },
        }
    }
    assert(all_objects(recs));
    assert(shape_ok(v@));

    // the columns: every key, in order of first appearance
    let mut cols: Vec<Vec<u8>> = Vec::new();
    for i in 0..n
        invariant
            n == xs.len(),
            recs == jview_list(xs@),
            recs.len() == n,
            all_objects(recs),
            names_view(cols@) == cols_spec(recs.take(i as int)),
    {
        proof {
            lemma_jview_list(xs@);
        }
        let fs = match &xs[i] {
            JsonValue::Obj(fs) => fs,
            _ => {
                proof {
                    assert(recs[i as int] is Obj);
                    assert(false);
                }
                return Err(PipelineError::Parse { offset: 0 });
            },
        };
        let ghost keys = rec_keys(recs[i as int]);
        proof {
            lemma_jview_fields(fs@);
            assert(keys =~= Seq::new(fs@.len(), |k: int| fs@[k].0@));
        }
        let m = fs.len();
        for j in 0..m
            invariant
                m == fs.len(),
                keys == rec_keys(recs[i as int]),
                keys.len() == m,
                forall|k: int| 0 <= k < m ==> keys[k] == fs@[k].0@,
                names_view(cols@) == add_keys(cols_spec(recs.take(i as int)), keys.take(j as int)),
        {
            let ghost before = names_view(cols@);
            proof {
                assert(keys.take(j as int + 1).drop_last() =~= keys.take(j as int));
                assert(keys.take(j as int + 1).last() == keys[j as int]);
            }
            match find_col(&cols, &fs[j].0) {
                Some(_) => {
                    proof {
                        lemma_first_idx(before, keys[j as int]);
                        assert(before.contains(keys[j as int])) by {
                            let fi = first_idx(before, keys[j as int]);
                            assert(before[fi] == keys[j as int]);
                        }
                    }
                },
                None => {
                    cols.push(clone_bytes(&fs[j].0));
                    proof {
                        lemma_first_idx(before, keys[j as int]);
                        assert(!before.contains(keys[j as int])) by {
                            if before.contains(keys[j as int]) {
                                let w = choose|w: int|
                                    0 <= w < before.len() && before[w] == keys[j as int];
                                assert(first_idx(before, keys[j as int]) != -1);
                            }
                        }
                        assert(names_view(cols@) =~= before.push(keys[j as int]));
                    }
                },
            }
        }
        proof {
            assert(keys.take(m as int) =~= keys);
            assert(recs.take(i as int + 1).drop_last() =~= recs.take(i as int));
            assert(recs.take(i as int + 1).last() == recs[i as int]);
        }
    }
    proof {
        assert(recs.take(n as int) =~= recs);
    }
    let ghost colsv = cols_spec(recs);
    assert(names_view(cols@) == colsv);

    // the rows: one per record, one cell per column
    let ncols = cols.len();
    let mut rows: Vec<Vec<JsonValue>> = Vec::new();
    for i in 0..n
        invariant
            n == xs.len(),
            recs == jview_list(xs@),
            recs.len() == n,
            all_objects(recs),
            ncols == cols.len(),
            names_view(cols@) == colsv,
            colsv == cols_spec(recs),
            rows@.len() == i,
            forall|k: int| 0 <= k < i ==> jview_list(rows@[k]@) == rows_spec(recs, colsv)[k],
    {
        proof {
            lemma_jview_list(xs@);
        }
        let fs = match &xs[i] {
            JsonValue::Obj(fs) => fs,
            _ => {
                proof {
                    assert(recs[i as int] is Obj);
                    assert(false);
                }
                return Err(PipelineError::Parse { offset: 0 });
            },
        };
        let mut row: Vec<JsonValue> = Vec::new();
        for j in 0..ncols
            invariant
                ncols == cols.len(),
                names_view(cols@) == colsv,
                row@.len() == j,
                recs[i as int] == JVal::Obj(jview_fields(fs@)),
                forall|k: int| 0 <= k < j ==> jview(row@[k]) == cell_of(recs[i as int], colsv[k]),
        {
            let cell = get_cell(fs, &cols[j]);
            row.push(cell);
            proof {
                lemma_jview_list(row@);
            }
        }
        proof {
            lemma_jview_list(row@);
            assert(jview_list(row@) =~= rows_spec(recs, colsv)[i as int]);
        }
        rows.push(row);
    }

    // one consistent type per column
    for j in 0..ncols
        invariant
            n == xs.len(),
            ncols == cols.len(),
            names_view(cols@) == colsv,
            colsv == cols_spec(recs),
            recs == recs_of(v@) && shape_ok(v@),
            rows@.len() == n,
            recs.len() == n,
            forall|k: int| 0 <= k < n ==> jview_list(rows@[k]@) == rows_spec(recs, colsv)[k],
            forall|k: int| 0 <= k < j ==> col_consistent(rows_spec(recs, colsv), k),
    {
        let ghost rv = rows_spec(recs, colsv);
        let mut seen: Option<Tag> = None;
        for i in 0..n
            invariant
                n == xs.len(),
                ncols == cols.len(),
                rows@.len() == n,
                rv == rows_spec(recs, colsv),
                rv.len() == n,
                j < ncols,
                recs == recs_of(v@) && shape_ok(v@),
                colsv == cols_spec(recs),
                names_view(cols@) == colsv,
                recs.len() == n,
                forall|k: int| 0 <= k < n ==> jview_list(rows@[k]@) == rv[k],
                forall|k: int| 0 <= k < n ==> (#[trigger] rv[k]).len() == ncols,
                seen is None ==> forall|k: int| 0 <= k < i ==> (#[trigger] rv[k][j as int]) is Null,
                seen matches Some(tg) ==> exists|k: int|
                    0 <= k < i && !((#[trigger] rv[k][j as int]) is Null) && tag_of(
                        rv[k][j as int],
                    ) == tg,
                seen matches Some(tg) ==> forall|k: int|
                    0 <= k < i && !((#[trigger] rv[k][j as int]) is Null) ==> tag_of(
                        rv[k][j as int],
                    ) == tg,
        {
            proof {
                lemma_jview_list(rows@[i as int]@);
                assert(rv[i as int][j as int] == jview(rows@[i as int]@[j as int]));
            }
            let cell_tag = tag_of_value(&rows[i][j]);
            if !matches!(cell_tag, Tag::Null) {
                match seen {
                    None => {
                        seen = Some(cell_tag);
                    },
                    Some(tg) => {
                        if cell_tag != tg {
                            proof {
                                let w = choose|k: int|
                                    0 <= k < i && !((#[trigger] rv[k][j as int]) is Null)
                                        && tag_of(rv[k][j as int]) == tg;
                                assert(!col_consistent(rv, j as int)) by {
                                    if col_consistent(rv, j as int) {
                                        assert(tag_of(rv[w][j as int]) == tag_of(
                                            rv[i as int][j as int],
                                        ));
                                    }
                                }
                                assert(!table_consistent(rv, ncols as int));
                            }
                            return Err(
                                PipelineError::SchemaInference { column: clone_bytes(&cols[j]) },
                            );
                        }
                    },
                }
            }
        }
    }

    let t = Table { cols, rows };
    proof {
        lemma_cols_spec_distinct(recs);
        assert(t@.cols == colsv);
        assert(t@.rows =~= rows_spec(recs, colsv));
        assert(t@.wf()) by {
            assert(forall|i: int|
                0 <= i < t@.rows.len() ==> (#[trigger] t@.rows[i]).len() == t@.cols.len());
        }
        assert(table_consistent(rows_spec(recs, colsv), colsv.len() as int));
    }
    Ok(t)
}

} // verus!
