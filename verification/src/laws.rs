//! The laws the pipeline obeys, stated and proved over the same spec
//! functions its contracts use: the normalizer's row count, shape and
//! outcome column, and the consolidator's idempotence, ordering and
//! order-independence.

use vstd::prelude::*;

use crate::value::JVal;
use crate::table::TableV;
use crate::table::first_idx;
use crate::table::lemma_first_idx;
use crate::table::lemma_first_idx_unique;
use crate::table::add_keys;
use crate::table::distinct;
use crate::table::lemma_add_keys;
use crate::table::col_consistent;
use crate::table::table_consistent;
use crate::normalize::list_len;
use crate::normalize::fanout;
use crate::normalize::total_fanout;
use crate::normalize::lemma_explode_len;
use crate::normalize::winner_spec;
use crate::normalize::explode_spec;
use crate::normalize::rename_spec;
use crate::normalize::unnest_spec;
use crate::normalize::rename_ok;
use crate::normalize::unnest_ok;
use crate::normalize::rename_cell;
use crate::normalize::unnest_row;
use crate::normalize::clan_spec;
use crate::normalize::winner_ok;
use crate::normalize::winner_of;
use crate::normalize::normalize_ok;
use crate::normalize::normalize_spec;
use crate::consolidate::union_cols;
use crate::consolidate::union_ok;
use crate::consolidate::aligned_rows;
use crate::consolidate::all_rows;
use crate::consolidate::dedup_rows;
use crate::consolidate::row_compat;
use crate::consolidate::merge_row;
use crate::consolidate::first_compat;
use crate::consolidate::lemma_first_compat;
use crate::consolidate::insert_merge;
use crate::consolidate::consolidate_spec;
use crate::consolidate::lemma_rows_contains_intro;
use crate::names::s_team;
use crate::names::s_opponent;
use crate::names::s_winner;
use crate::names::s_team_crowns;
use crate::names::s_opponent_crowns;

verus! {

/// The normalizer emits, for every input match, as many rows as its
/// longer side list has entries, at least one; in total, the sum of
/// those fanouts.
pub proof fn law_normalizer_row_count(tv: TableV)
    requires
        tv.wf(),
        normalize_ok(tv),
    ensures
        normalize_spec(tv).rows.len() == total_fanout(
            tv.rows,
            first_idx(tv.cols, s_team()),
            first_idx(tv.cols, s_opponent()),
        ),
{
    lemma_explode_len(tv.rows, first_idx(tv.cols, s_team()), first_idx(tv.cols, s_opponent()));
}

/// A single match whose side lists have k and m entries normalizes to
/// max(k, m) rows; one row when both sides have one entry.
pub proof fn law_single_match_row_count(tv: TableV, k: int, m: int)
    requires
        tv.wf(),
        normalize_ok(tv),
        tv.rows.len() == 1,
        k == list_len(tv.rows[0][first_idx(tv.cols, s_team())]),
        m == list_len(tv.rows[0][first_idx(tv.cols, s_opponent())]),
    ensures
        k >= 1 || m >= 1 ==> normalize_spec(tv).rows.len() == if k >= m {
            k
        } else {
            m
        },
        k == 1 && m == 1 ==> normalize_spec(tv).rows.len() == 1,
{
    law_normalizer_row_count(tv);
    let ai = first_idx(tv.cols, s_team());
    let bi = first_idx(tv.cols, s_opponent());
    let d = tv.rows.drop_last();
    assert(d =~= Seq::<Seq<JVal>>::empty());
    assert(d.len() == 0);
    assert(total_fanout(d, ai, bi) == 0);
    assert(tv.rows.last() == tv.rows[0]);
    assert(total_fanout(tv.rows, ai, bi) == total_fanout(d, ai, bi) + fanout(
        tv.rows.last()[ai],
        tv.rows.last()[bi],
    ));
}

/// The outcome cell is always exactly "team" or "opponent", and it is
/// "team" exactly when both crown counts are numbers and the team's
/// is strictly greater; a tie goes to the opponent.
pub proof fn law_winner_value(tc: JVal, oc: JVal)
    ensures
        winner_of(tc, oc) == JVal::Str(s_team()) || winner_of(tc, oc) == JVal::Str(s_opponent()),
        winner_of(tc, oc) == JVal::Str(s_team()) <==> (tc is Int && oc is Int && tc->Int_0
            > oc->Int_0),
        winner_of(tc, oc) == JVal::Str(s_opponent()) <==> !(tc is Int && oc is Int && tc->Int_0
            > oc->Int_0),
        tc is Int && oc is Int && tc->Int_0 == oc->Int_0 ==> winner_of(tc, oc) == JVal::Str(
            s_opponent(),
        ),
{
    assert(s_team().len() == 4);
    assert(s_opponent().len() == 8);
}

/// In the table the winner step returns, the outcome column is the
/// last one, and every row's outcome cell is determined by that same
/// row's two crown cells.
pub proof fn law_winner_column(tv: TableV)
    requires
        tv.wf(),
        winner_ok(tv),
    ensures
        winner_spec(tv).cols.last() == s_winner(),
        winner_spec(tv).rows.len() == tv.rows.len(),
        forall|i: int|
            0 <= i < winner_spec(tv).rows.len() ==> (#[trigger] winner_spec(tv).rows[i]).last()
                == winner_of(
                winner_spec(tv).rows[i][first_idx(winner_spec(tv).cols, s_team_crowns())],
                winner_spec(tv).rows[i][first_idx(winner_spec(tv).cols, s_opponent_crowns())],
            ),
{
    let out = winner_spec(tv);
    let tci = first_idx(tv.cols, s_team_crowns());
    let oci = first_idx(tv.cols, s_opponent_crowns());
    lemma_first_idx(tv.cols, s_team_crowns());
    lemma_first_idx(tv.cols, s_opponent_crowns());
    lemma_first_idx(tv.cols, s_winner());
    lemma_first_idx_unique(out.cols, s_team_crowns(), tci);
    lemma_first_idx_unique(out.cols, s_opponent_crowns(), oci);
    assert forall|i: int|
        0 <= i < out.rows.len() implies (#[trigger] out.rows[i]).last() == winner_of(
        out.rows[i][first_idx(out.cols, s_team_crowns())],
        out.rows[i][first_idx(out.cols, s_opponent_crowns())],
    ) by {
        assert(tv.rows[i].len() == tv.cols.len());
        assert(out.rows[i] == tv.rows[i].push(winner_of(tv.rows[i][tci], tv.rows[i][oci])));
        assert(out.rows[i][tci] == tv.rows[i][tci]);
        assert(out.rows[i][oci] == tv.rows[i][oci]);
    }
}

/// The positional rename keeps a table well-formed.
pub proof fn lemma_rename_wf(tv: TableV, name: Seq<u8>, names: Seq<Seq<u8>>)
    requires
        tv.wf(),
        rename_ok(tv, name, names),
    ensures
        rename_spec(tv, name, names).wf(),
{
    let ci = first_idx(tv.cols, name);
    lemma_first_idx(tv.cols, name);
    let out = rename_spec(tv, name, names);
    assert forall|i: int| 0 <= i < out.rows.len() implies (#[trigger] out.rows[i]).len()
        == out.cols.len() by {
        assert(tv.rows[i].len() == tv.cols.len());
        assert(out.rows[i] == tv.rows[i].update(ci, rename_cell(tv.rows[i][ci], names)));
    }
}

/// Unnesting keeps a table well-formed.
pub proof fn lemma_unnest_wf(tv: TableV, name: Seq<u8>, names: Seq<Seq<u8>>)
    requires
        tv.wf(),
        unnest_ok(tv, name, names),
    ensures
        unnest_spec(tv, name, names).wf(),
{
    let ci = first_idx(tv.cols, name);
    lemma_first_idx(tv.cols, name);
    let out = unnest_spec(tv, name, names);
    assert(out.cols.len() == tv.cols.len() - 1 + names.len());
    assert forall|i: int| 0 <= i < out.rows.len() implies (#[trigger] out.rows[i]).len()
        == out.cols.len() by {
        assert(tv.rows[i].len() == tv.cols.len());
        assert(out.rows[i] == unnest_row(tv.rows[i], ci, names.len() as int));
    }
}

/// The winner step keeps a table well-formed.
pub proof fn lemma_winner_wf(tv: TableV)
    requires
        tv.wf(),
        winner_ok(tv),
    ensures
        winner_spec(tv).wf(),
{
    let out = winner_spec(tv);
    lemma_first_idx(tv.cols, s_winner());
    assert forall|i: int| 0 <= i < out.rows.len() implies (#[trigger] out.rows[i]).len()
        == out.cols.len() by {
        assert(tv.rows[i].len() == tv.cols.len());
    }
    assert forall|p: int, q: int|
        0 <= p < q < out.cols.len() implies out.cols[p] != out.cols[q] by {
        if q == out.cols.len() - 1 {
            assert(tv.cols[p] != s_winner());
        }
    }
}

/// The whole normalizer keeps a table well-formed.
pub proof fn law_normalize_wf(tv: TableV)
    requires
        tv.wf(),
        normalize_ok(tv),
    ensures
        normalize_spec(tv).wf(),
        clan_spec(tv).wf(),
{
    crate::normalize::lemma_explode_wf(tv, s_team(), s_opponent());
    let t1 = explode_spec(tv, s_team(), s_opponent());
    lemma_rename_wf(t1, crate::names::s_arena(), crate::normalize::arena_fields());
    let t2 = rename_spec(t1, crate::names::s_arena(), crate::normalize::arena_fields());
    lemma_rename_wf(t2, crate::names::s_game_mode(), crate::normalize::gamemode_fields());
    let t3 = rename_spec(t2, crate::names::s_game_mode(), crate::normalize::gamemode_fields());
    lemma_rename_wf(t3, s_team(), crate::normalize::team_fields());
    let t4 = rename_spec(t3, s_team(), crate::normalize::team_fields());
    lemma_rename_wf(t4, s_opponent(), crate::normalize::opponent_fields());
    let t5 = rename_spec(t4, s_opponent(), crate::normalize::opponent_fields());
    lemma_unnest_wf(t5, crate::names::s_arena(), crate::normalize::arena_fields());
    let t6 = unnest_spec(t5, crate::names::s_arena(), crate::normalize::arena_fields());
    lemma_unnest_wf(t6, crate::names::s_game_mode(), crate::normalize::gamemode_fields());
    let t7 = unnest_spec(t6, crate::names::s_game_mode(), crate::normalize::gamemode_fields());
    lemma_unnest_wf(t7, s_team(), crate::normalize::team_fields());
    let t8 = unnest_spec(t7, s_team(), crate::normalize::team_fields());
    lemma_unnest_wf(t8, s_opponent(), crate::normalize::opponent_fields());
    let t9 = unnest_spec(t8, s_opponent(), crate::normalize::opponent_fields());
    lemma_rename_wf(t9, crate::names::s_team_clan(), crate::normalize::team_clan_fields());
    let t10 = rename_spec(t9, crate::names::s_team_clan(), crate::normalize::team_clan_fields());
    lemma_rename_wf(
        t10,
        crate::names::s_opponent_clan(),
        crate::normalize::opponent_clan_fields(),
    );
    let t11 = rename_spec(
        t10,
        crate::names::s_opponent_clan(),
        crate::normalize::opponent_clan_fields(),
    );
    lemma_unnest_wf(t11, crate::names::s_team_clan(), crate::normalize::team_clan_fields());
    let t12 = unnest_spec(t11, crate::names::s_team_clan(), crate::normalize::team_clan_fields());
    lemma_unnest_wf(
        t12,
        crate::names::s_opponent_clan(),
        crate::normalize::opponent_clan_fields(),
    );
    let t13 = unnest_spec(
        t12,
        crate::names::s_opponent_clan(),
        crate::normalize::opponent_clan_fields(),
    );
    assert(t13 == clan_spec(tv));
    lemma_winner_wf(t13);
}

/// In the table the normalizer returns, the outcome column is the
/// last one, and every row's outcome cell is exactly one of "team"
/// and "opponent", determined by that row's two crown cells.
pub proof fn law_normalize_winner(tv: TableV)
    requires
        tv.wf(),
        normalize_ok(tv),
    ensures
        normalize_spec(tv).cols.last() == s_winner(),
        forall|i: int|
            0 <= i < normalize_spec(tv).rows.len() ==> (#[trigger] normalize_spec(
                tv,
            ).rows[i]).last() == winner_of(
                normalize_spec(tv).rows[i][first_idx(normalize_spec(tv).cols, s_team_crowns())],
                normalize_spec(tv).rows[i][first_idx(
                    normalize_spec(tv).cols,
                    s_opponent_crowns(),
                )],
            ),
{
    law_normalize_wf(tv);
    law_winner_column(clan_spec(tv));
}

/// Adding keys an accumulator already holds changes nothing.
pub proof fn lemma_add_keys_subsumed(acc: Seq<Seq<u8>>, ks: Seq<Seq<u8>>)
    requires
        forall|j: int| 0 <= j < ks.len() ==> acc.contains(#[trigger] ks[j]),
    ensures
        add_keys(acc, ks) == acc,
    decreases ks.len(),
{
    if ks.len() != 0 {
        lemma_add_keys_subsumed(acc, ks.drop_last());
        assert(acc.contains(ks[ks.len() - 1]));
    }
}

/// Every row is compatible with itself.
pub proof fn lemma_row_compat_refl(r: Seq<JVal>)
    ensures
        row_compat(r, r),
{
}

/// A compatible row's position determines `first_compat`.
pub proof fn lemma_first_compat_unique(rs: Seq<Seq<JVal>>, r: Seq<JVal>, p: int)
    requires
        0 <= p < rs.len(),
        row_compat(rs[p], r),
        forall|k: int| 0 <= k < p ==> !row_compat(#[trigger] rs[k], r),
    ensures
        first_compat(rs, r) == p,
{
    lemma_first_compat(rs, r);
    let fi = first_compat(rs, r);
    if fi == -1 {
        assert(!row_compat(rs[p], r));
    } else {
        if fi < p {
            assert(!row_compat(rs[fi], r));
        }
        if p < fi {
            assert(!row_compat(rs[p], r));
        }
    }
}

/// A row the accumulated rows have absorbed: its first compatible row
/// already holds everything it says.
pub open spec fn absorbed(rs: Seq<Seq<JVal>>, r: Seq<JVal>) -> bool {
    &&& first_compat(rs, r) != -1
    &&& merge_row(rs[first_compat(rs, r)], r) == rs[first_compat(rs, r)]
}

/// Taking an absorbed row in again changes nothing.
pub proof fn lemma_absorbed_noop(rs: Seq<Seq<JVal>>, r: Seq<JVal>)
    requires
        absorbed(rs, r),
    ensures
        insert_merge(rs, r) == rs,
{
    lemma_first_compat(rs, r);
    let k = first_compat(rs, r);
    assert(insert_merge(rs, r) =~= rs.update(k, merge_row(rs[k], r)));
    assert(rs.update(k, rs[k]) =~= rs);
}

/// After deduplication, every input row has been absorbed.
pub proof fn lemma_dedup_absorbs(s: Seq<Seq<JVal>>)
    ensures
        forall|j: int| 0 <= j < s.len() ==> absorbed(dedup_rows(s), #[trigger] s[j]),
    decreases s.len(),
{
    if s.len() != 0 {
        let d = s.drop_last();
        lemma_dedup_absorbs(d);
        let p = dedup_rows(d);
        let r_new = s.last();
        let k = first_compat(p, r_new);
        lemma_first_compat(p, r_new);
        let p2 = dedup_rows(s);
        assert(p2 == insert_merge(p, r_new));
        assert(forall|j: int| 0 <= j < d.len() ==> #[trigger] d[j] == s[j]);
        if k == -1 {
            assert(p2 =~= p.push(r_new));
            assert forall|j: int| 0 <= j < s.len() implies absorbed(p2, #[trigger] s[j]) by {
                if j < s.len() - 1 {
                    assert(d[j] == s[j]);
                    assert(absorbed(p, d[j]));
                    let k0 = first_compat(p, s[j]);
                    lemma_first_compat(p, s[j]);
                    assert(p2[k0] == p[k0]);
                    assert(forall|q: int| 0 <= q < k0 ==> p2[q] == p[q]);
                    lemma_first_compat_unique(p2, s[j], k0);
                } else {
                    assert(s[j] == r_new);
                    lemma_row_compat_refl(r_new);
                    assert(p2[p.len() as int] == r_new);
                    assert(forall|q: int| 0 <= q < p.len() ==> p2[q] == p[q]);
                    lemma_first_compat_unique(p2, r_new, p.len() as int);
                    assert(merge_row(r_new, r_new) =~= r_new);
                }
            }
        } else {
            let m = merge_row(p[k], r_new);
            assert(p2 =~= p.update(k, m));
            assert(m.len() == p[k].len());
            assert forall|j: int| 0 <= j < s.len() implies absorbed(p2, #[trigger] s[j]) by {
                if j == s.len() - 1 {
                    assert(s[j] == r_new);
                    assert(row_compat(m, r_new)) by {
                        assert forall|j2: int|
                            0 <= j2 < m.len() implies (#[trigger] m[j2]) is Null || r_new[j2]
                            is Null || m[j2] == r_new[j2] by {
                            assert(row_compat(p[k], r_new));
                            assert(p[k][j2] is Null || r_new[j2] is Null || p[k][j2]
                                == r_new[j2]);
                        }
                    }
                    assert(forall|q: int| 0 <= q < k ==> p2[q] == p[q]);
                    assert(p2[k] == m);
                    lemma_first_compat_unique(p2, r_new, k);
                    assert(merge_row(m, r_new) =~= m);
                } else {
                    assert(d[j] == s[j]);
                    assert(absorbed(p, d[j]));
                    let k0 = first_compat(p, s[j]);
                    lemma_first_compat(p, s[j]);
                    if k0 < k {
                        assert(p2[k0] == p[k0]);
                        assert(forall|q: int| 0 <= q < k0 ==> p2[q] == p[q]);
                        lemma_first_compat_unique(p2, s[j], k0);
                    } else if k0 == k {
                        assert(row_compat(p[k], s[j]) && merge_row(p[k], s[j]) == p[k]);
                        assert(row_compat(m, s[j])) by {
                            assert forall|j2: int|
                                0 <= j2 < m.len() implies (#[trigger] m[j2]) is Null
                                || s[j][j2] is Null || m[j2] == s[j][j2] by {
                                if !(m[j2] is Null) && !(s[j][j2] is Null) {
                                    if p[k][j2] is Null {
                                        assert(merge_row(p[k], s[j])[j2] == s[j][j2]);
                                        assert(merge_row(p[k], s[j])[j2] == p[k][j2]);
                                        assert(false);
                                    } else {
                                        assert(m[j2] == p[k][j2]);
                                        assert(p[k][j2] == s[j][j2] || s[j][j2] is Null) by {
                                            assert(row_compat(p[k], s[j]));
                                        }
                                    }
                                }
                            }
                        }
                        assert(forall|q: int| 0 <= q < k ==> p2[q] == p[q]);
                        lemma_first_compat_unique(p2, s[j], k);
                        assert(merge_row(m, s[j]) =~= m) by {
                            assert forall|j2: int|
                                0 <= j2 < m.len() implies merge_row(m, s[j])[j2] == m[j2] by {
                                if m[j2] is Null {
                                    assert(p[k][j2] is Null && r_new[j2] is Null);
                                    assert(merge_row(p[k], s[j])[j2] == p[k][j2]);
                                    assert(s[j][j2] is Null);
                                }
                            }
                        }
                    } else {
                        assert(!row_compat(p[k], s[j]));
                        assert(!row_compat(m, s[j])) by {
                            if row_compat(m, s[j]) {
                                assert(m.len() == s[j].len());
                                if p[k].len() == s[j].len() {
                                    let j2 = choose|j2: int|
                                        0 <= j2 < p[k].len() && !((#[trigger] p[k][j2]) is Null)
                                            && !(s[j][j2] is Null) && p[k][j2] != s[j][j2];
                                    assert(m[j2] == p[k][j2]);
                                    assert(m[j2] is Null || s[j][j2] is Null || m[j2]
                                        == s[j][j2]);
                                    assert(false);
                                }
                            }
                        }
                        assert(p2[k0] == p[k0]);
                        assert forall|q: int| 0 <= q < k0 implies !row_compat(
                            #[trigger] p2[q],
                            s[j],
                        ) by {
                            if q != k {
                                assert(p2[q] == p[q]);
                            }
                        }
                        lemma_first_compat_unique(p2, s[j], k0);
                    }
                }
            }
        }
    }
}

/// Folding the same rows in a second time changes nothing.
pub proof fn lemma_dedup_extend(s: Seq<Seq<JVal>>, q: int)
    requires
        0 <= q <= s.len(),
    ensures
        dedup_rows(s + s.take(q)) == dedup_rows(s),
    decreases q,
{
    if q == 0 {
        assert(s + s.take(0) =~= s);
    } else {
        lemma_dedup_extend(s, q - 1);
        assert((s + s.take(q)).drop_last() =~= s + s.take(q - 1));
        assert((s + s.take(q)).last() == s[q - 1]);
        lemma_dedup_absorbs(s);
        lemma_absorbed_noop(dedup_rows(s), s[q - 1]);
    }
}

/// Consolidating the same snapshot twice yields exactly what
/// consolidating it once yields, and the type check agrees too.
pub proof fn law_consolidate_duplicate(tv: TableV)
    ensures
        consolidate_spec(seq![tv, tv]) == consolidate_spec(seq![tv]),
        union_ok(seq![tv, tv]) == union_ok(seq![tv]),
{
    let ts1 = seq![tv];
    let ts2 = seq![tv, tv];
    assert(ts2.drop_last() =~= ts1);
    assert(ts1.drop_last() =~= Seq::<TableV>::empty());
    let u1 = union_cols(ts1);
    assert(union_cols(Seq::<TableV>::empty()) == Seq::<Seq<u8>>::empty());
    assert(union_cols(ts1.drop_last()) == Seq::<Seq<u8>>::empty());
    assert(ts1.last() == tv);
    assert(u1 == add_keys(Seq::<Seq<u8>>::empty(), tv.cols));
    lemma_add_keys(Seq::<Seq<u8>>::empty(), tv.cols);
    assert forall|j: int| 0 <= j < tv.cols.len() implies u1.contains(#[trigger] tv.cols[j]) by {
        assert(tv.cols.contains(tv.cols[j]));
    }
    lemma_add_keys_subsumed(u1, tv.cols);
    assert(union_cols(ts2) == u1);
    let a1 = aligned_rows(tv, u1);
    assert(all_rows(Seq::<TableV>::empty(), u1) == Seq::<Seq<JVal>>::empty());
    assert(all_rows(ts1.drop_last(), u1) == Seq::<Seq<JVal>>::empty());
    assert(all_rows(ts1, u1) =~= a1);
    assert(ts2.last() == tv);
    assert(all_rows(ts2, u1) =~= a1 + a1);
    lemma_dedup_extend(a1, a1.len() as int);
    assert(a1 + a1.take(a1.len() as int) =~= a1 + a1);
    assert(dedup_rows(all_rows(ts2, union_cols(ts2))) == dedup_rows(all_rows(ts1, u1)));
    assert(consolidate_spec(ts2) =~= consolidate_spec(ts1));
    assert(union_ok(ts2) == union_ok(ts1)) by {
        let w = u1.len() as int;
        if table_consistent(a1, w) {
            assert forall|j: int| 0 <= j < w implies col_consistent(a1 + a1, j) by {
                assert(col_consistent(a1, j));
                assert forall|i1: int, i2: int|
                    0 <= i1 < (a1 + a1).len() && 0 <= i2 < (a1 + a1).len() && !((
                    #[trigger] (a1 + a1)[i1][j]) is Null) && !((#[trigger] (a1 + a1)[i2][j])
                    is Null) implies crate::table::tag_of((a1 + a1)[i1][j]) == crate::table::tag_of(
                    (a1 + a1)[i2][j],
                ) by {
                    let p1 = if i1 < a1.len() {
                        i1
                    } else {
                        i1 - a1.len()
                    };
                    let p2 = if i2 < a1.len() {
                        i2
                    } else {
                        i2 - a1.len()
                    };
                    assert((a1 + a1)[i1] == a1[p1]);
                    assert((a1 + a1)[i2] == a1[p2]);
                }
            }
        }
        if table_consistent(a1 + a1, w) {
            assert forall|j: int| 0 <= j < w implies col_consistent(a1, j) by {
                assert(col_consistent(a1 + a1, j));
                assert forall|i1: int, i2: int|
                    0 <= i1 < a1.len() && 0 <= i2 < a1.len() && !((#[trigger] a1[i1][j]) is Null)
                    && !((#[trigger] a1[i2][j]) is Null) implies crate::table::tag_of(a1[i1][j])
                    == crate::table::tag_of(a1[i2][j]) by {
                    assert((a1 + a1)[i1] == a1[i1]);
                    assert((a1 + a1)[i2] == a1[i2]);
                }
            }
        }
    }
}

/// No cell of any row is null.
pub open spec fn no_nulls(rows: Seq<Seq<JVal>>) -> bool {
    forall|i: int, j: int|
        0 <= i < rows.len() && 0 <= j < rows[i].len() ==> !((#[trigger] rows[i][j]) is Null)
}

/// Folding distinct names into an empty accumulator keeps them as they
/// are.
pub proof fn lemma_add_keys_from_empty(ks: Seq<Seq<u8>>)
    requires
        distinct(ks),
    ensures
        add_keys(Seq::<Seq<u8>>::empty(), ks) == ks,
    decreases ks.len(),
{
    if ks.len() != 0 {
        let d = ks.drop_last();
        assert(distinct(d)) by {
            assert(forall|k: int| 0 <= k < d.len() ==> d[k] == ks[k]);
        }
        lemma_add_keys_from_empty(d);
        assert(!d.contains(ks.last())) by {
            if d.contains(ks.last()) {
                let w = choose|w: int| 0 <= w < d.len() && d[w] == ks.last();
                assert(ks[w] == ks[ks.len() - 1]);
            }
        }
        assert(add_keys(Seq::<Seq<u8>>::empty(), ks) =~= ks);
    }
}

/// The union schema of snapshots that all share one schema is that
/// schema.
pub proof fn lemma_union_cols_same(ts: Seq<TableV>, cols: Seq<Seq<u8>>)
    requires
        ts.len() > 0,
        distinct(cols),
        forall|i: int| 0 <= i < ts.len() ==> (#[trigger] ts[i]).cols == cols,
    ensures
        union_cols(ts) == cols,
    decreases ts.len(),
{
    if ts.len() == 1 {
        assert(ts.drop_last() =~= Seq::<TableV>::empty());
        assert(union_cols(ts.drop_last()) == Seq::<Seq<u8>>::empty());
        lemma_add_keys_from_empty(cols);
        assert(ts.last() == ts[0]);
    } else {
        let d = ts.drop_last();
        assert(forall|i: int| 0 <= i < d.len() ==> (#[trigger] d[i]).cols == ts[i].cols);
        lemma_union_cols_same(d, cols);
        assert forall|j: int| 0 <= j < cols.len() implies union_cols(d).contains(
            #[trigger] cols[j],
        ) by {
            assert(union_cols(d)[j] == cols[j]);
        }
        lemma_add_keys_subsumed(cols, cols);
        assert(ts.last().cols == cols);
    }
}

/// Aligning a snapshot to its own schema leaves its rows as they are.
pub proof fn lemma_aligned_id(t: TableV)
    requires
        t.wf(),
    ensures
        aligned_rows(t, t.cols) == t.rows,
{
    assert forall|i: int|
        0 <= i < t.rows.len() implies aligned_rows(t, t.cols)[i] == t.rows[i] by {
        assert(t.rows[i].len() == t.cols.len());
        assert forall|j: int|
            0 <= j < t.cols.len() implies aligned_rows(t, t.cols)[i][j] == t.rows[i][j] by {
            lemma_first_idx_unique(t.cols, t.cols[j], j);
        }
        assert(aligned_rows(t, t.cols)[i] =~= t.rows[i]);
    }
    assert(aligned_rows(t, t.cols) =~= t.rows);
}

/// A row stands among the aligned rows of same-schema snapshots
/// exactly when one of the snapshots holds it.
pub proof fn lemma_all_rows_member(ts: Seq<TableV>, cols: Seq<Seq<u8>>, r: Seq<JVal>)
    requires
        forall|i: int|
            0 <= i < ts.len() ==> (#[trigger] ts[i]).wf() && (#[trigger] ts[i]).cols == cols,
    ensures
        all_rows(ts, cols).contains(r) <==> exists|i: int|
            0 <= i < ts.len() && (#[trigger] ts[i]).rows.contains(r),
    decreases ts.len(),
{
    if ts.len() == 0 {
    } else {
        let d = ts.drop_last();
        lemma_all_rows_member(d, cols, r);
        lemma_aligned_id(ts.last());
        let p = all_rows(d, cols);
        let g = ts.last().rows;
        assert(all_rows(ts, cols) == p + g);
        if all_rows(ts, cols).contains(r) {
            let w = choose|w: int| 0 <= w < (p + g).len() && (p + g)[w] == r;
            if w < p.len() {
                assert(p[w] == r);
                lemma_rows_contains_intro(p, w);
                let i = choose|i: int| 0 <= i < d.len() && (#[trigger] d[i]).rows.contains(r);
                assert(ts[i].rows.contains(r));
            } else {
                assert(g[w - p.len()] == r);
                lemma_rows_contains_intro(g, w - p.len());
                assert(ts[ts.len() - 1].rows.contains(r));
            }
        }
        if exists|i: int| 0 <= i < ts.len() && (#[trigger] ts[i]).rows.contains(r) {
            let i = choose|i: int| 0 <= i < ts.len() && (#[trigger] ts[i]).rows.contains(r);
            if i < ts.len() - 1 {
                assert(d[i].rows.contains(r));
                assert(p.contains(r));
                let w = choose|w: int| 0 <= w < p.len() && p[w] == r;
                assert((p + g)[w] == r);
                lemma_rows_contains_intro(p + g, w);
            } else {
                let w = choose|w: int| 0 <= w < g.len() && g[w] == r;
                assert((p + g)[p.len() + w] == r);
                lemma_rows_contains_intro(p + g, p.len() + w);
            }
        }
    }
}

/// On rows without nulls, folding repeated observations keeps exactly
/// the rows that were there, without nulls.
pub proof fn lemma_dedup_no_null(s: Seq<Seq<JVal>>)
    requires
        no_nulls(s),
    ensures
        no_nulls(dedup_rows(s)),
        forall|r: Seq<JVal>| dedup_rows(s).contains(r) <==> s.contains(r),
    decreases s.len(),
{
    if s.len() != 0 {
        let d = s.drop_last();
        assert(no_nulls(d)) by {
            assert(forall|i: int| 0 <= i < d.len() ==> d[i] == s[i]);
        }
        lemma_dedup_no_null(d);
        let p = dedup_rows(d);
        let r_new = s.last();
        let k = first_compat(p, r_new);
        lemma_first_compat(p, r_new);
        if k == -1 {
            assert(dedup_rows(s) == p.push(r_new));
            assert(no_nulls(dedup_rows(s))) by {
                assert(forall|i: int|
                    0 <= i < p.len() ==> #[trigger] dedup_rows(s)[i] == p[i]);
                assert(dedup_rows(s)[p.len() as int] == r_new);
                assert(forall|j: int|
                    0 <= j < r_new.len() ==> !((#[trigger] s[s.len() - 1][j]) is Null));
            }
            assert forall|r: Seq<JVal>| dedup_rows(s).contains(r) implies s.contains(r) by {
                let w = choose|w: int|
                    0 <= w < dedup_rows(s).len() && dedup_rows(s)[w] == r;
                if w < p.len() {
                    assert(p[w] == r);
                    lemma_rows_contains_intro(p, w);
                    assert(p.contains(r));
                    assert(d.contains(r));
                    let v = choose|v: int| 0 <= v < d.len() && d[v] == r;
                    lemma_rows_contains_intro(s, v);
                } else {
                    assert(r == r_new);
                    lemma_rows_contains_intro(s, s.len() - 1);
                }
            }
            assert forall|r: Seq<JVal>| s.contains(r) implies dedup_rows(s).contains(r) by {
                let w = choose|w: int| 0 <= w < s.len() && s[w] == r;
                if w < s.len() - 1 {
                    lemma_rows_contains_intro(d, w);
                    let v = choose|v: int| 0 <= v < p.len() && p[v] == r;
                    lemma_rows_contains_intro(p.push(r_new), v);
                } else {
                    lemma_rows_contains_intro(p.push(r_new), p.len() as int);
                }
            }
        } else {
            // a compatible row among null-free rows is the row itself
            assert(row_compat(p[k], r_new));
            assert(no_nulls(p));
            assert(p[k] =~= r_new) by {
                assert(forall|j: int|
                    0 <= j < p[k].len() ==> !((#[trigger] p[k][j]) is Null));
                assert(forall|j: int|
                    0 <= j < r_new.len() ==> !((#[trigger] s[s.len() - 1][j]) is Null));
            }
            assert(merge_row(p[k], r_new) =~= p[k]);
            assert(dedup_rows(s) == p.update(k, merge_row(p[k], r_new)));
            assert(dedup_rows(s) =~= p);
            assert forall|r: Seq<JVal>| s.contains(r) implies dedup_rows(s).contains(r) by {
                let w = choose|w: int| 0 <= w < s.len() && s[w] == r;
                if w < s.len() - 1 {
                    lemma_rows_contains_intro(d, w);
                } else {
                    lemma_rows_contains_intro(p, k);
                    assert(p.contains(r_new));
                }
            }
            assert forall|r: Seq<JVal>| dedup_rows(s).contains(r) implies s.contains(r) by {
                assert(p.contains(r));
                assert(d.contains(r));
                let v = choose|v: int| 0 <= v < d.len() && d[v] == r;
                lemma_rows_contains_intro(s, v);
            }
        }
    }
}

/// Snapshots that share one schema and hold no null cells consolidate,
/// in whatever order they are given, to one schema and one set of
/// rows: the order can move ties, never membership.
pub proof fn law_consolidate_order(ts1: Seq<TableV>, ts2: Seq<TableV>, cols: Seq<Seq<u8>>)
    requires
        ts1.len() > 0 && ts2.len() > 0,
        distinct(cols),
        forall|t: TableV| ts1.contains(t) <==> ts2.contains(t),
        forall|i: int|
            0 <= i < ts1.len() ==> (#[trigger] ts1[i]).wf() && (#[trigger] ts1[i]).cols == cols,
        forall|i: int|
            0 <= i < ts2.len() ==> (#[trigger] ts2[i]).wf() && (#[trigger] ts2[i]).cols == cols,
        forall|i: int| 0 <= i < ts1.len() ==> no_nulls((#[trigger] ts1[i]).rows),
        forall|i: int| 0 <= i < ts2.len() ==> no_nulls((#[trigger] ts2[i]).rows),
    ensures
        consolidate_spec(ts1).cols == consolidate_spec(ts2).cols,
        forall|r: Seq<JVal>|
            consolidate_spec(ts1).rows.contains(r) <==> consolidate_spec(ts2).rows.contains(r),
{
    lemma_union_cols_same(ts1, cols);
    lemma_union_cols_same(ts2, cols);
    let a1 = all_rows(ts1, cols);
    let a2 = all_rows(ts2, cols);
    assert(no_nulls(a1)) by {
        lemma_all_rows_no_null(ts1, cols);
    }
    assert(no_nulls(a2)) by {
        lemma_all_rows_no_null(ts2, cols);
    }
    lemma_dedup_no_null(a1);
    lemma_dedup_no_null(a2);
    let ti = first_idx(cols, crate::names::s_battle_time());
    assert forall|r: Seq<JVal>|
        consolidate_spec(ts1).rows.contains(r) <==> consolidate_spec(ts2).rows.contains(r) by {
        crate::consolidate::lemma_sort_desc_contains(dedup_rows(a1), ti, r);
        crate::consolidate::lemma_sort_desc_contains(dedup_rows(a2), ti, r);
        lemma_all_rows_member(ts1, cols, r);
        lemma_all_rows_member(ts2, cols, r);
        if exists|i: int| 0 <= i < ts1.len() && (#[trigger] ts1[i]).rows.contains(r) {
            let i = choose|i: int| 0 <= i < ts1.len() && (#[trigger] ts1[i]).rows.contains(r);
            lemma_seq_contains_intro_tables(ts1, i);
            assert(ts2.contains(ts1[i]));
            let i2 = choose|i2: int| 0 <= i2 < ts2.len() && ts2[i2] == ts1[i];
            assert(ts2[i2].rows.contains(r));
        }
        if exists|i: int| 0 <= i < ts2.len() && (#[trigger] ts2[i]).rows.contains(r) {
            let i = choose|i: int| 0 <= i < ts2.len() && (#[trigger] ts2[i]).rows.contains(r);
            lemma_seq_contains_intro_tables(ts2, i);
            assert(ts1.contains(ts2[i]));
            let i2 = choose|i2: int| 0 <= i2 < ts1.len() && ts1[i2] == ts2[i];
            assert(ts1[i2].rows.contains(r));
        }
    }
}

/// The canonical table is sorted by match time, descending.
pub proof fn law_consolidate_sorted(ts: Seq<TableV>)
    ensures
        crate::consolidate::sorted_desc(
            consolidate_spec(ts).rows,
            first_idx(consolidate_spec(ts).cols, crate::names::s_battle_time()),
        ),
{
    let u = union_cols(ts);
    crate::consolidate::lemma_sort_desc_sorted(
        dedup_rows(all_rows(ts, u)),
        first_idx(u, crate::names::s_battle_time()),
    );
}

/// A sequence of tables contains each of its elements.
proof fn lemma_seq_contains_intro_tables(ts: Seq<TableV>, i: int)
    requires
        0 <= i < ts.len(),
    ensures
        ts.contains(ts[i]),
{
}

/// Aligned rows of same-schema, null-free snapshots hold no nulls.
proof fn lemma_all_rows_no_null(ts: Seq<TableV>, cols: Seq<Seq<u8>>)
    requires
        forall|i: int|
            0 <= i < ts.len() ==> (#[trigger] ts[i]).wf() && (#[trigger] ts[i]).cols == cols,
        forall|i: int| 0 <= i < ts.len() ==> no_nulls((#[trigger] ts[i]).rows),
    ensures
        no_nulls(all_rows(ts, cols)),
    decreases ts.len(),
{
    if ts.len() != 0 {
        let d = ts.drop_last();
        assert(forall|i: int| 0 <= i < d.len() ==> d[i] == ts[i]);
        lemma_all_rows_no_null(d, cols);
        lemma_aligned_id(ts.last());
        let p = all_rows(d, cols);
        let g = ts.last().rows;
        assert(no_nulls(g));
        assert forall|i: int, j: int|
            0 <= i < all_rows(ts, cols).len() && 0 <= j < all_rows(ts, cols)[i].len() implies !((
        #[trigger] all_rows(ts, cols)[i][j]) is Null) by {
            if i < p.len() {
                assert(all_rows(ts, cols)[i] == p[i]);
            } else {
                assert(all_rows(ts, cols)[i] == g[i - p.len()]);
            }
        }
    }
}

} // verus!
