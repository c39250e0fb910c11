//! Properties of reconciliation, proved once and for all over the
//! catalog model: importing a feed twice changes nothing the second time,
//! an alias entry never becomes a row of its own, and user-entered rows
//! are never touched.

use vstd::prelude::*;

use crate::manifest::{index_names_unique, GameV};
use crate::reconcile::{
    aliases_from, aliases_of, apply_inserts, apply_plan_spec, apply_replaces, entry_content,
    first_id_match, first_match, found_at, import_spec, lemma_first_id_match, lemma_first_match,
    plan_from, plan_step, reconcile_plan, CatalogRowV, CatalogV, PlanV, RowContentV,
};

verus! {

/// The feed's entry `e` is an alias entry.
pub open spec fn is_alias_entry(feed: Seq<(Seq<char>, GameV)>, e: int) -> bool {
    feed[e].1.alias is Some
}

/// The feed's entry `e` will be inserted: it is no alias and no catalog
/// row carries its name.
pub open spec fn is_insert_case(
    cat: Seq<CatalogRowV>,
    feed: Seq<(Seq<char>, GameV)>,
    e: int,
) -> bool {
    !is_alias_entry(feed, e) && first_match(cat, feed[e].0) is None
}

/// The feed's entry `e` will replace the first row carrying its name:
/// that row is externally managed.
pub open spec fn is_replace_case(
    cat: Seq<CatalogRowV>,
    feed: Seq<(Seq<char>, GameV)>,
    e: int,
) -> bool {
    &&& !is_alias_entry(feed, e)
    &&& match first_match(cat, feed[e].0) {
        Some(j) => cat[j].externally_managed,
        None => false,
    }
}

/// In a sequence of rows with pairwise distinct ids, looking a row up by
/// its own id finds exactly it.
pub proof fn lemma_distinct_ids_find_self(rows: Seq<CatalogRowV>, j: int)
    requires
        forall|a: int, b: int| 0 <= a < b < rows.len() ==> rows[a].id != rows[b].id,
        0 <= j < rows.len(),
    ensures
        first_id_match(rows, rows[j].id) == Some(j),
{
    lemma_first_id_match(rows, rows[j].id);
    match first_id_match(rows, rows[j].id) {
        Some(i) => {
            if i < j {
                assert(rows[i].id == rows[j].id);
            } else if i > j {
                assert(rows[j].id != rows[i].id);
            }
        },
        None => {
            assert(rows[j].id == rows[j].id);
        },
    }
}

/// Shape of the insert batch: the rows keep their prefix, and each queued
/// content is appended as an externally managed row with the next id.
pub proof fn lemma_apply_inserts_shape(
    rows: Seq<CatalogRowV>,
    next_id: int,
    inserts: Seq<RowContentV>,
    i: int,
    res_rows: Seq<CatalogRowV>,
    res_next: int,
)
    requires
        0 <= i <= inserts.len(),
        (res_rows, res_next) == apply_inserts(rows, next_id, inserts, i),
    ensures
        res_rows.len() == rows.len() + inserts.len() - i,
        res_next == next_id + inserts.len() - i,
        forall|m: int| 0 <= m < rows.len() ==> #[trigger] res_rows[m] == rows[m],
        forall|m: int|
            0 <= m < inserts.len() - i ==> #[trigger] res_rows[rows.len() + m] == (CatalogRowV {
                id: next_id + m,
                externally_managed: true,
                content: inserts[i + m],
            }),
    decreases inserts.len() - i,
{
    if i >= inserts.len() {
    } else {
        let row_i = CatalogRowV { id: next_id, externally_managed: true, content: inserts[i] };
        assert((res_rows, res_next) == apply_inserts(rows.push(row_i), next_id + 1, inserts, i + 1));
        lemma_apply_inserts_shape(
            rows.push(row_i),
            next_id + 1,
            inserts,
            i + 1,
            res_rows,
            res_next,
        );
        assert forall|m: int| 0 <= m < rows.len() implies #[trigger] res_rows[m] == rows[m] by {
            assert(res_rows[m] == rows.push(row_i)[m]);
        }
        assert forall|m: int|
            0 <= m < inserts.len() - i implies #[trigger] res_rows[rows.len() + m] == (CatalogRowV {
            id: next_id + m,
            externally_managed: true,
            content: inserts[i + m],
        }) by {
            if m == 0 {
                assert(res_rows[rows.len() as int] == rows.push(row_i)[rows.len() as int]);
            } else {
                assert(res_rows[rows.push(row_i).len() + (m - 1)] == (CatalogRowV {
                    id: (next_id + 1) + (m - 1),
                    externally_managed: true,
                    content: inserts[(i + 1) + (m - 1)],
                }));
            }
        }
    }
}

/// The queued replacement that hits row `m`, if any: the first remaining
/// one whose id belongs to that row.
pub open spec fn rep_for_row(
    rows0: Seq<CatalogRowV>,
    reps: Seq<(int, RowContentV)>,
    i: int,
    m: int,
) -> Option<RowContentV>
    decreases reps.len() - i,
{
    if i < 0 || i >= reps.len() {
        None
    } else if first_id_match(rows0, reps[i].0) == Some(m) {
        Some(reps[i].1)
    } else {
        rep_for_row(rows0, reps, i + 1, m)
    }
}

/// Looking up an id only reads the rows' ids.
pub proof fn lemma_first_id_match_same_ids(r1: Seq<CatalogRowV>, r2: Seq<CatalogRowV>, id: int)
    requires
        r1.len() == r2.len(),
        forall|m: int| 0 <= m < r1.len() ==> r1[m].id == r2[m].id,
    ensures
        first_id_match(r1, id) == first_id_match(r2, id),
    decreases r1.len(),
{
    if r1.len() == 0 {
    } else {
        assert(r1[0].id == r2[0].id);
        assert forall|m: int| 0 <= m < r1.drop_first().len() implies r1.drop_first()[m].id
            == r2.drop_first()[m].id by {
            assert(r1.drop_first()[m] == r1[m + 1]);
            assert(r2.drop_first()[m] == r2[m + 1]);
        }
        lemma_first_id_match_same_ids(r1.drop_first(), r2.drop_first(), id);
    }
}

/// Effect of the replace batch, row by row: a row hit by a queued
/// replacement carries its content afterwards, externally managed; every
/// other row is untouched. Requires the queued ids to be pairwise
/// distinct.
pub proof fn lemma_apply_replaces_effect(
    rows0: Seq<CatalogRowV>,
    rows: Seq<CatalogRowV>,
    reps: Seq<(int, RowContentV)>,
    i: int,
)
    requires
        0 <= i <= reps.len(),
        rows.len() == rows0.len(),
        forall|m: int| 0 <= m < rows.len() ==> rows[m].id == rows0[m].id,
        forall|a: int, b: int| i <= a < b < reps.len() ==> reps[a].0 != reps[b].0,
    ensures
        apply_replaces(rows, reps, i).len() == rows.len(),
        forall|m: int|
            0 <= m < rows.len() ==> apply_replaces(rows, reps, i)[m] == (match rep_for_row(
                rows0,
                reps,
                i,
                m,
            ) {
                Some(c) => CatalogRowV {
                    id: rows0[m].id,
                    externally_managed: true,
                    content: c,
                },
                None => rows[m],
            }),
    decreases reps.len() - i,
{
    if i >= reps.len() {
    } else {
        lemma_first_id_match_same_ids(rows, rows0, reps[i].0);
        let rows_next = crate::reconcile::replace_row(rows, reps[i].0, reps[i].1);
        match first_id_match(rows0, reps[i].0) {
            Some(j) => {
                lemma_first_id_match(rows0, reps[i].0);
                assert(rows_next == rows.update(
                    j,
                    CatalogRowV {
                        id: reps[i].0,
                        externally_managed: true,
                        content: reps[i].1,
                    },
                ));
                assert(rows0[j].id == reps[i].0);
                assert forall|m: int| 0 <= m < rows_next.len() implies rows_next[m].id
                    == rows0[m].id by {
                    if m != j {
                        assert(rows_next[m] == rows[m]);
                    }
                }
                lemma_apply_replaces_effect(rows0, rows_next, reps, i + 1);
                assert forall|m: int|
                    0 <= m < rows.len() implies apply_replaces(rows, reps, i)[m] == (
                match rep_for_row(rows0, reps, i, m) {
                    Some(c) => CatalogRowV {
                        id: rows0[m].id,
                        externally_managed: true,
                        content: c,
                    },
                    None => rows[m],
                }) by {
                    if m == j {
                        // later replacements carry other ids, so none hits m
                        assert forall|a: int|
                            i + 1 <= a < reps.len() implies first_id_match(
                            rows0,
                            (#[trigger] reps[a]).0,
                        ) != Some(m) by {
                            if first_id_match(rows0, reps[a].0) == Some(m) {
                                lemma_first_id_match(rows0, reps[a].0);
                                assert(rows0[m].id == reps[a].0);
                                assert(reps[a].0 != reps[i].0);
                            }
                        }
                        lemma_rep_for_row_none(rows0, reps, i + 1, m);
                        assert(rows_next[m].id == reps[i].0);
                    } else {
                        assert(rows_next[m] == rows[m]);
                    }
                }
            },
            None => {
                assert(rows_next == rows);
                lemma_apply_replaces_effect(rows0, rows_next, reps, i + 1);
                assert forall|m: int|
                    0 <= m < rows.len() implies apply_replaces(rows, reps, i)[m] == (
                match rep_for_row(rows0, reps, i, m) {
                    Some(c) => CatalogRowV {
                        id: rows0[m].id,
                        externally_managed: true,
                        content: c,
                    },
                    None => rows[m],
                }) by {}
            },
        }
    }
}

/// The index of the row a replace-case entry overwrites.
pub open spec fn replace_target(
    cat: Seq<CatalogRowV>,
    feed: Seq<(Seq<char>, GameV)>,
    e: int,
) -> int {
    match first_match(cat, feed[e].0) {
        Some(j) => j,
        None => -1,
    }
}

/// A queued replacement hit is always one of the queued pairs.
proof fn lemma_rep_for_row_char(
    rows0: Seq<CatalogRowV>,
    reps: Seq<(int, RowContentV)>,
    i: int,
    m: int,
)
    ensures
        match rep_for_row(rows0, reps, i, m) {
            Some(c) => exists|a: int|
                i <= a < reps.len() && (#[trigger] reps[a]).1 == c && first_id_match(
                    rows0,
                    reps[a].0,
                ) == Some(m),
            None => true,
        },
    decreases reps.len() - i,
{
    if i < 0 || i >= reps.len() {
    } else if first_id_match(rows0, reps[i].0) == Some(m) {
        assert(reps[i].1 == reps[i].1 && first_id_match(rows0, reps[i].0) == Some(m));
    } else {
        lemma_rep_for_row_char(rows0, reps, i + 1, m);
    }
}

/// When pair `a` targets row `m` and the queued ids are distinct, the hit
/// on `m` is exactly pair `a`.
proof fn lemma_rep_for_row_finds(
    rows0: Seq<CatalogRowV>,
    reps: Seq<(int, RowContentV)>,
    i: int,
    m: int,
    a: int,
)
    requires
        0 <= i <= a < reps.len(),
        first_id_match(rows0, reps[a].0) == Some(m),
        forall|x: int, y: int| i <= x < y < reps.len() ==> reps[x].0 != reps[y].0,
    ensures
        rep_for_row(rows0, reps, i, m) == Some(reps[a].1),
    decreases reps.len() - i,
{
    lemma_first_id_match(rows0, reps[a].0);
    if i == a {
    } else {
        if first_id_match(rows0, reps[i].0) == Some(m) {
            lemma_first_id_match(rows0, reps[i].0);
            assert(rows0[m].id == reps[i].0);
            assert(rows0[m].id == reps[a].0);
            assert(reps[i].0 != reps[a].0);
            assert(false);
        }
        lemma_rep_for_row_finds(rows0, reps, i + 1, m, a);
    }
}

/// What the alias map holds: exactly the names of entries whose alias
/// names the target.
proof fn lemma_aliases_membership(
    feed: Seq<(Seq<char>, GameV)>,
    name: Seq<char>,
    i: int,
    acc: Seq<Seq<char>>,
)
    requires
        0 <= i <= feed.len(),
    ensures
        forall|x: Seq<char>|
            aliases_from(feed, name, i, acc).contains(x) <==> acc.contains(x) || exists|e2: int|
                i <= e2 < feed.len() && (#[trigger] feed[e2]).0 == x && feed[e2].1.alias == Some(
                    name,
                ),
    decreases feed.len() - i,
{
    if i >= feed.len() {
    } else {
        let acc2 = if feed[i].1.alias == Some(name) {
            acc.push(feed[i].0)
        } else {
            acc
        };
        lemma_aliases_membership(feed, name, i + 1, acc2);
        assert forall|x: Seq<char>|
            aliases_from(feed, name, i, acc).contains(x) <==> acc.contains(x) || exists|e2: int|
                i <= e2 < feed.len() && (#[trigger] feed[e2]).0 == x && feed[e2].1.alias == Some(
                    name,
                ) by {
            assert(aliases_from(feed, name, i, acc) == aliases_from(feed, name, i + 1, acc2));
            if feed[i].1.alias == Some(name) {
                assert(acc2 == acc.push(feed[i].0));
                assert forall|y: Seq<char>|
                    acc2.contains(y) <==> acc.contains(y) || y == feed[i].0 by {
                    if acc.contains(y) {
                        let w = choose|w: int| 0 <= w < acc.len() && acc[w] == y;
                        assert(acc2[w] == y);
                    }
                    if y == feed[i].0 {
                        assert(acc2[acc.len() as int] == y);
                    }
                    if acc2.contains(y) {
                        let w = choose|w: int| 0 <= w < acc2.len() && acc2[w] == y;
                        if w < acc.len() {
                            assert(acc[w] == y);
                        }
                    }
                }
            }
            if aliases_from(feed, name, i, acc).contains(x) {
                if !acc.contains(x) {
                    if acc2.contains(x) && !acc.contains(x) {
                        assert(feed[i].0 == x && feed[i].1.alias == Some(name));
                    }
                }
            }
            if acc.contains(x) {
                assert(acc2.contains(x)) by {
                    if feed[i].1.alias == Some(name) {
                        let w = choose|w: int| 0 <= w < acc.len() && acc[w] == x;
                        assert(acc2[w] == x);
                    }
                }
            }
            if exists|e2: int|
                i <= e2 < feed.len() && (#[trigger] feed[e2]).0 == x && feed[e2].1.alias == Some(
                    name,
                ) {
                let e2 = choose|e2: int|
                    i <= e2 < feed.len() && (#[trigger] feed[e2]).0 == x && feed[e2].1.alias
                        == Some(name);
                if e2 == i {
                    assert(acc2.contains(x)) by {
                        assert(acc2[acc.len() as int] == feed[i].0);
                    }
                }
            }
        }
    }
}

/// A row content queued for insertion comes from an insert-case entry at
/// or after `e_lo`.
pub open spec fn insert_from_entry(
    cat: Seq<CatalogRowV>,
    feed: Seq<(Seq<char>, GameV)>,
    e_lo: int,
    c: RowContentV,
) -> bool {
    exists|e2: int|
        e_lo <= e2 < feed.len() && #[trigger] is_insert_case(cat, feed, e2) && c == entry_content(
            feed,
            e2,
        )
}

/// A queued replacement pair comes from a replace-case entry at or after
/// `e_lo`, keyed by its target row's id.
pub open spec fn replace_from_entry(
    cat: Seq<CatalogRowV>,
    feed: Seq<(Seq<char>, GameV)>,
    e_lo: int,
    p: (int, RowContentV),
) -> bool {
    exists|e2: int|
        e_lo <= e2 < feed.len() && #[trigger] is_replace_case(cat, feed, e2) && p == (
            cat[replace_target(cat, feed, e2)].id,
            entry_content(feed, e2),
        )
}

proof fn lemma_insert_from_entry_weaken(
    cat: Seq<CatalogRowV>,
    feed: Seq<(Seq<char>, GameV)>,
    e_lo: int,
    e_hi: int,
    c: RowContentV,
)
    requires
        e_lo <= e_hi,
        insert_from_entry(cat, feed, e_hi, c),
    ensures
        insert_from_entry(cat, feed, e_lo, c),
{
    let e2 = choose|e2: int|
        e_hi <= e2 < feed.len() && #[trigger] is_insert_case(cat, feed, e2) && c == entry_content(
            feed,
            e2,
        );
    assert(e_lo <= e2 < feed.len() && is_insert_case(cat, feed, e2) && c == entry_content(
        feed,
        e2,
    ));
}

proof fn lemma_replace_from_entry_weaken(
    cat: Seq<CatalogRowV>,
    feed: Seq<(Seq<char>, GameV)>,
    e_lo: int,
    e_hi: int,
    p: (int, RowContentV),
)
    requires
        e_lo <= e_hi,
        replace_from_entry(cat, feed, e_hi, p),
    ensures
        replace_from_entry(cat, feed, e_lo, p),
{
    let e2 = choose|e2: int|
        e_hi <= e2 < feed.len() && #[trigger] is_replace_case(cat, feed, e2) && p == (
            cat[replace_target(cat, feed, e2)].id,
            entry_content(feed, e2),
        );
    assert(e_lo <= e2 < feed.len() && is_replace_case(cat, feed, e2) && p == (
        cat[replace_target(cat, feed, e2)].id,
        entry_content(feed, e2),
    ));
}

/// What a plan holds: it extends the accumulator; every queued insert is
/// the content of an insert-case entry and every insert-case entry is
/// queued; likewise for replacements, each keyed by its target row's id;
/// and the queued replacement ids are pairwise distinct.
#[verifier::rlimit(100)]
proof fn lemma_plan_membership(
    cat: Seq<CatalogRowV>,
    feed: Seq<(Seq<char>, GameV)>,
    e: int,
    acc: PlanV,
)
    requires
        0 <= e <= feed.len(),
        index_names_unique(feed),
        forall|a: int, b: int| 0 <= a < b < cat.len() ==> cat[a].id != cat[b].id,
        forall|a: int, b: int|
            0 <= a < b < acc.replaces.len() ==> acc.replaces[a].0 != acc.replaces[b].0,
        forall|a: int, e2: int|
            0 <= a < acc.replaces.len() && e <= e2 < feed.len() && is_replace_case(cat, feed, e2)
                ==> (#[trigger] acc.replaces[a]).0 != cat[#[trigger] replace_target(
                cat,
                feed,
                e2,
            )].id,
    ensures
        plan_from(cat, feed, e, acc).inserts.len() >= acc.inserts.len(),
        forall|k: int|
            0 <= k < acc.inserts.len() ==> #[trigger] plan_from(cat, feed, e, acc).inserts[k]
                == acc.inserts[k],
        forall|k: int|
            acc.inserts.len() <= k < plan_from(cat, feed, e, acc).inserts.len()
                ==> insert_from_entry(
                cat,
                feed,
                e,
                #[trigger] plan_from(cat, feed, e, acc).inserts[k],
            ),
        forall|e2: int|
            e <= e2 < feed.len() && #[trigger] is_insert_case(cat, feed, e2) ==> exists|k: int|
                acc.inserts.len() <= k < plan_from(cat, feed, e, acc).inserts.len()
                    && #[trigger] plan_from(cat, feed, e, acc).inserts[k] == entry_content(
                    feed,
                    e2,
                ),
        plan_from(cat, feed, e, acc).replaces.len() >= acc.replaces.len(),
        forall|k: int|
            0 <= k < acc.replaces.len() ==> #[trigger] plan_from(cat, feed, e, acc).replaces[k]
                == acc.replaces[k],
        forall|k: int|
            acc.replaces.len() <= k < plan_from(cat, feed, e, acc).replaces.len()
                ==> replace_from_entry(
                cat,
                feed,
                e,
                #[trigger] plan_from(cat, feed, e, acc).replaces[k],
            ),
        forall|e2: int|
            e <= e2 < feed.len() && #[trigger] is_replace_case(cat, feed, e2) ==> exists|k: int|
                acc.replaces.len() <= k < plan_from(cat, feed, e, acc).replaces.len()
                    && #[trigger] plan_from(cat, feed, e, acc).replaces[k] == (
                cat[replace_target(cat, feed, e2)].id,
                entry_content(feed, e2),
                ),
        forall|a: int, b: int|
            0 <= a < b < plan_from(cat, feed, e, acc).replaces.len() ==> plan_from(
                cat,
                feed,
                e,
                acc,
            ).replaces[a].0 != plan_from(cat, feed, e, acc).replaces[b].0,
    decreases feed.len() - e,
{
    if e >= feed.len() {
    } else {
        let acc2 = plan_step(cat, feed, e, acc);
        let res = plan_from(cat, feed, e, acc);
        assert(res == plan_from(cat, feed, e + 1, acc2));
        lemma_first_match(cat, feed[e].0);
        // the step's target (when it replaces) differs from every later target
        if is_replace_case(cat, feed, e) {
            let j = replace_target(cat, feed, e);
            assert(found_at(cat, feed[e].0, j));
            assert(acc2.replaces == acc.replaces.push((cat[j].id, entry_content(feed, e))));
            assert forall|e2: int|
                e + 1 <= e2 < feed.len() && is_replace_case(cat, feed, e2) implies cat[j].id != cat[
                #[trigger] replace_target(cat, feed, e2)].id by {
                let j2 = replace_target(cat, feed, e2);
                lemma_first_match(cat, feed[e2].0);
                assert(found_at(cat, feed[e2].0, j2));
                assert(feed[e].0 != feed[e2].0);
                assert(j != j2);
            }
            assert forall|a: int, b: int|
                0 <= a < b < acc2.replaces.len() implies acc2.replaces[a].0
                != acc2.replaces[b].0 by {
                if b < acc.replaces.len() {
                } else {
                    assert(acc2.replaces[a] == acc.replaces[a]);
                    assert(acc2.replaces[b].0 == cat[j].id);
                    assert(is_replace_case(cat, feed, e));
                }
            }
        } else {
            assert(acc2.replaces == acc.replaces);
        }
        lemma_plan_membership(cat, feed, e + 1, acc2);
        if is_insert_case(cat, feed, e) {
            assert(acc2.inserts == acc.inserts.push(entry_content(feed, e)));
            assert(res.inserts[acc.inserts.len() as int] == entry_content(feed, e));
        } else {
            assert(acc2.inserts == acc.inserts);
        }
        if is_replace_case(cat, feed, e) {
            let j = replace_target(cat, feed, e);
            assert(acc2.replaces[acc.replaces.len() as int] == (cat[j].id, entry_content(feed, e)));
            assert(res.replaces[acc.replaces.len() as int] == (cat[j].id, entry_content(feed, e)));
        }
        assert forall|k: int|
            acc.inserts.len() <= k < res.inserts.len() implies insert_from_entry(
            cat,
            feed,
            e,
            #[trigger] res.inserts[k],
        ) by {
            if k >= acc2.inserts.len() {
                assert(insert_from_entry(cat, feed, e + 1, res.inserts[k]));
                lemma_insert_from_entry_weaken(cat, feed, e, e + 1, res.inserts[k]);
            } else {
                assert(k == acc.inserts.len() && is_insert_case(cat, feed, e));
                assert(res.inserts[k] == entry_content(feed, e));
            }
        }
        assert forall|k: int|
            acc.replaces.len() <= k < res.replaces.len() implies replace_from_entry(
            cat,
            feed,
            e,
            #[trigger] res.replaces[k],
        ) by {
            if k >= acc2.replaces.len() {
                assert(replace_from_entry(cat, feed, e + 1, res.replaces[k]));
                lemma_replace_from_entry_weaken(cat, feed, e, e + 1, res.replaces[k]);
            } else {
                assert(k == acc.replaces.len() && is_replace_case(cat, feed, e));
                assert(res.replaces[k] == (
                    cat[replace_target(cat, feed, e)].id,
                    entry_content(feed, e),
                ));
            }
        }
    }
}

/// If every remaining queued id misses row `m`'s id, none hits it.
proof fn lemma_rep_for_row_none(
    rows0: Seq<CatalogRowV>,
    reps: Seq<(int, RowContentV)>,
    i: int,
    m: int,
)
    requires
        forall|a: int| i <= a < reps.len() ==> first_id_match(rows0, (#[trigger] reps[a]).0) != Some(
            m,
        ),
    ensures
        rep_for_row(rows0, reps, i, m) is None,
    decreases reps.len() - i,
{
    if i < 0 || i >= reps.len() {
    } else {
        lemma_rep_for_row_none(rows0, reps, i + 1, m);
    }
}

/// Every feed entry that is not an alias has a matching catalog row, and
/// wherever that first-matching row is externally managed it carries
/// exactly the entry's derived content.
pub open spec fn catalog_reflects_feed(cat: CatalogV, feed: Seq<(Seq<char>, GameV)>) -> bool {
    forall|e: int|
        0 <= e < feed.len() && !is_alias_entry(feed, e) ==> match first_match(
            cat.rows,
            (#[trigger] feed[e]).0,
        ) {
            Some(j) => cat.rows[j].externally_managed ==> cat.rows[j].content == entry_content(
                feed,
                e,
            ),
            None => false,
        }
}

/// Where a queued replacement hits row `m`, that row is an original,
/// externally managed one, and the replacement carries the content its
/// replace-case entry derived.
spec fn rep_hit_ok(
    cat_rows: Seq<CatalogRowV>,
    feed: Seq<(Seq<char>, GameV)>,
    rows1: Seq<CatalogRowV>,
    reps: Seq<(int, RowContentV)>,
    m: int,
) -> bool {
    match rep_for_row(rows1, reps, 0, m) {
        Some(c) => {
            &&& m < cat_rows.len()
            &&& cat_rows[m].externally_managed
            &&& exists|e2: int|
                0 <= e2 < feed.len() && #[trigger] is_replace_case(cat_rows, feed, e2)
                    && replace_target(cat_rows, feed, e2) == m && c == entry_content(feed, e2)
        },
        None => true,
    }
}

/// What one import leaves behind: a well-formed catalog whose original
/// rows keep their ids and names, whose user-entered rows are untouched,
/// whose appended rows are externally managed contents of insert-case
/// entries, and which reflects the feed.
#[verifier::rlimit(100)]
pub proof fn lemma_import_structure(cat: CatalogV, feed: Seq<(Seq<char>, GameV)>)
    requires
        cat.wf(),
        index_names_unique(feed),
    ensures
        import_spec(cat, feed).wf(),
        cat.rows.len() <= import_spec(cat, feed).rows.len(),
        import_spec(cat, feed).next_id == cat.next_id + import_spec(cat, feed).rows.len()
            - cat.rows.len(),
        forall|m: int|
            0 <= m < cat.rows.len() ==> (#[trigger] import_spec(cat, feed).rows[m]).id
                == cat.rows[m].id,
        forall|m: int|
            0 <= m < cat.rows.len() ==> (#[trigger] import_spec(
                cat,
                feed,
            ).rows[m]).content.metadata.default_name == cat.rows[m].content.metadata.default_name,
        forall|m: int|
            0 <= m < cat.rows.len() && !cat.rows[m].externally_managed ==> #[trigger] import_spec(
                cat,
                feed,
            ).rows[m] == cat.rows[m],
        forall|m: int|
            cat.rows.len() <= m < import_spec(cat, feed).rows.len() ==> (#[trigger] import_spec(
                cat,
                feed,
            ).rows[m]).externally_managed && insert_from_entry(
                cat.rows,
                feed,
                0,
                import_spec(cat, feed).rows[m].content,
            ),
        catalog_reflects_feed(import_spec(cat, feed), feed),
{
    let plan = reconcile_plan(cat.rows, feed);
    let empty = PlanV { inserts: Seq::empty(), replaces: Seq::empty() };
    lemma_plan_membership(cat.rows, feed, 0, empty);
    let pair = apply_inserts(cat.rows, cat.next_id, plan.inserts, 0);
    let rows1 = pair.0;
    let next1 = pair.1;
    lemma_apply_inserts_shape(cat.rows, cat.next_id, plan.inserts, 0, rows1, next1);
    let n = cat.rows.len() as int;
    // the rows after insertion still have pairwise distinct ids
    assert forall|a: int, b: int| 0 <= a < b < rows1.len() implies rows1[a].id != rows1[b].id by {
        if b < n {
            assert(rows1[a] == cat.rows[a] && rows1[b] == cat.rows[b]);
        } else if a < n {
            assert(rows1[a] == cat.rows[a]);
            assert(rows1[n + (b - n)].id == cat.next_id + (b - n));
        } else {
            assert(rows1[n + (a - n)].id == cat.next_id + (a - n));
            assert(rows1[n + (b - n)].id == cat.next_id + (b - n));
        }
    }
    let reps = plan.replaces;
    lemma_apply_replaces_effect(rows1, rows1, reps, 0);
    let rows2 = apply_replaces(rows1, reps, 0);
    let cat1 = import_spec(cat, feed);
    assert(cat1.rows == rows2 && cat1.next_id == next1);
    // no replacement hits an appended or user-entered row, and one that
    // hits an original row carries the content its entry derived
    assert forall|m: int| 0 <= m < rows1.len() implies #[trigger] rep_hit_ok(
        cat.rows,
        feed,
        rows1,
        reps,
        m,
    ) by {
        lemma_rep_for_row_char(rows1, reps, 0, m);
        match rep_for_row(rows1, reps, 0, m) {
            Some(c) => {
                let a = choose|a: int|
                    0 <= a < reps.len() && (#[trigger] reps[a]).1 == c && first_id_match(
                        rows1,
                        reps[a].0,
                    ) == Some(m);
                lemma_first_id_match(rows1, reps[a].0);
                assert(rows1[m].id == reps[a].0);
                assert(replace_from_entry(cat.rows, feed, 0, reps[a]));
                let e2 = choose|e2: int|
                    0 <= e2 < feed.len() && #[trigger] is_replace_case(cat.rows, feed, e2)
                        && reps[a] == (
                    cat.rows[replace_target(cat.rows, feed, e2)].id,
                    entry_content(feed, e2),
                    );
                let j2 = replace_target(cat.rows, feed, e2);
                lemma_first_match(cat.rows, feed[e2].0);
                assert(found_at(cat.rows, feed[e2].0, j2));
                assert(rows1[j2] == cat.rows[j2]);
                assert(rows1[m].id == rows1[j2].id);
                assert(m == j2);
            },
            None => {},
        }
    }
    // the per-row ensures
    assert forall|m: int|
        0 <= m < n implies (#[trigger] cat1.rows[m]).id == cat.rows[m].id && (
    cat1.rows[m]).content.metadata.default_name == cat.rows[m].content.metadata.default_name && (
    !cat.rows[m].externally_managed ==> cat1.rows[m] == cat.rows[m]) by {
        assert(rows1[m] == cat.rows[m]);
        assert(rep_hit_ok(cat.rows, feed, rows1, reps, m));
        match rep_for_row(rows1, reps, 0, m) {
            Some(c) => {
                let e2 = choose|e2: int|
                    0 <= e2 < feed.len() && #[trigger] is_replace_case(cat.rows, feed, e2)
                        && replace_target(cat.rows, feed, e2) == m && c == entry_content(feed, e2);
                lemma_first_match(cat.rows, feed[e2].0);
                assert(found_at(cat.rows, feed[e2].0, m));
                assert(c.metadata.default_name == feed[e2].0);
            },
            None => {},
        }
    }
    assert forall|m: int|
        n <= m < cat1.rows.len() implies (#[trigger] cat1.rows[m]).externally_managed
        && insert_from_entry(cat.rows, feed, 0, cat1.rows[m].content) && cat1.rows[m] == rows1[m]
        && cat1.rows[m].id == cat.next_id + (m - n) by {
        assert(rows1[n + (m - n)] == (CatalogRowV {
            id: cat.next_id + (m - n),
            externally_managed: true,
            content: plan.inserts[m - n],
        }));
        assert(insert_from_entry(cat.rows, feed, 0, plan.inserts[m - n]));
        assert(rep_hit_ok(cat.rows, feed, rows1, reps, m));
        assert(rep_for_row(rows1, reps, 0, m) is None);
        assert(cat1.rows[m] == rows1[m]);
    }
    // well-formedness
    assert(cat1.wf()) by {
        assert forall|m: int| 0 <= m < cat1.rows.len() implies (#[trigger] cat1.rows[m]).id
            == rows1[m].id by {
            match rep_for_row(rows1, reps, 0, m) {
                Some(c) => {},
                None => {},
            }
        }
        assert forall|m: int| 0 <= m < cat1.rows.len() implies 0 <= (#[trigger] cat1.rows[m]).id
            < cat1.next_id by {
            assert(cat1.rows[m].id == rows1[m].id);
            if m < n {
                assert(rows1[m] == cat.rows[m]);
            } else {
                assert(rows1[n + (m - n)].id == cat.next_id + (m - n));
            }
        }
        assert forall|a: int, b: int|
            0 <= a < b < cat1.rows.len() implies cat1.rows[a].id != cat1.rows[b].id by {
            assert(cat1.rows[a].id == rows1[a].id);
            assert(cat1.rows[b].id == rows1[b].id);
        }
    }
    // the catalog reflects the feed
    assert forall|e: int|
        0 <= e < feed.len() && !is_alias_entry(feed, e) implies match first_match(
        cat1.rows,
        (#[trigger] feed[e]).0,
    ) {
        Some(j) => cat1.rows[j].externally_managed ==> cat1.rows[j].content == entry_content(
            feed,
            e,
        ),
        None => false,
    } by {
        let name = feed[e].0;
        lemma_first_match(cat.rows, name);
        match first_match(cat.rows, name) {
            Some(j) => {
                assert(found_at(cat.rows, name, j));
                assert(found_at(cat1.rows, name, j)) by {
                    assert(cat1.rows[j].content.metadata.default_name == name);
                    assert forall|x: int|
                        0 <= x < j implies (
                    #[trigger] cat1.rows[x]).content.metadata.default_name != name by {
                        assert(cat.rows[x].content.metadata.default_name != name);
                    }
                }
                lemma_first_match(cat1.rows, name);
                match first_match(cat1.rows, name) {
                    Some(i) => {
                        assert(found_at(cat1.rows, name, i));
                        assert(i == j);
                        if cat.rows[j].externally_managed {
                            assert(is_replace_case(cat.rows, feed, e));
                            assert(replace_target(cat.rows, feed, e) == j);
                            let k = choose|k: int|
                                0 <= k < plan.replaces.len() && #[trigger] plan.replaces[k] == (
                                cat.rows[replace_target(cat.rows, feed, e)].id,
                                entry_content(feed, e),
                                );
                            assert(rows1[j] == cat.rows[j]);
                            lemma_distinct_ids_find_self(rows1, j);
                            assert(first_id_match(rows1, reps[k].0) == Some(j));
                            lemma_rep_for_row_finds(rows1, reps, 0, j, k);
                            assert(cat1.rows[j] == (CatalogRowV {
                                id: rows1[j].id,
                                externally_managed: true,
                                content: entry_content(feed, e),
                            }));
                        } else {
                            assert(cat1.rows[j] == cat.rows[j]);
                        }
                    },
                    None => {
                        assert(cat1.rows[j].content.metadata.default_name == name);
                        assert(false);
                    },
                }
            },
            None => {
                assert(is_insert_case(cat.rows, feed, e));
                let k = choose|k: int|
                    0 <= k < plan.inserts.len() && #[trigger] plan.inserts[k] == entry_content(
                        feed,
                        e,
                    );
                assert(cat1.rows[n + k] == rows1[n + k]);
                assert(rows1[n + k].content == entry_content(feed, e));
                assert(cat1.rows[n + k].content.metadata.default_name == name);
                lemma_first_match(cat1.rows, name);
                match first_match(cat1.rows, name) {
                    Some(i) => {
                        assert(found_at(cat1.rows, name, i));
                        if i < n {
                            assert(cat.rows[i].content.metadata.default_name != name);
                            assert(cat1.rows[i].content.metadata.default_name
                                == cat.rows[i].content.metadata.default_name);
                            assert(false);
                        } else {
                            assert(insert_from_entry(cat.rows, feed, 0, cat1.rows[i].content));
                            let e3 = choose|e3: int|
                                0 <= e3 < feed.len() && #[trigger] is_insert_case(
                                    cat.rows,
                                    feed,
                                    e3,
                                ) && cat1.rows[i].content == entry_content(feed, e3);
                            assert(feed[e3].0 == name);
                            assert(e3 == e);
                            assert(cat1.rows[i].externally_managed);
                        }
                    },
                    None => {
                        assert(cat1.rows[n + k].content.metadata.default_name == name);
                        assert(false);
                    },
                }
            },
        }
    }
}

/// Every queued replacement would write back exactly what its target row
/// already holds.
pub open spec fn trivial_reps(rows: Seq<CatalogRowV>, reps: Seq<(int, RowContentV)>) -> bool {
    forall|k: int|
        0 <= k < reps.len() ==> match first_id_match(rows, (#[trigger] reps[k]).0) {
            Some(j) => rows[j] == (CatalogRowV {
                id: reps[k].0,
                externally_managed: true,
                content: reps[k].1,
            }),
            None => false,
        }
}

/// Against a catalog that reflects the feed, planning queues no insert
/// and only replacements that write back what already stands.
proof fn lemma_plan_on_reflecting_catalog(
    cat1: CatalogV,
    feed: Seq<(Seq<char>, GameV)>,
    e: int,
    acc: PlanV,
)
    requires
        0 <= e <= feed.len(),
        cat1.wf(),
        catalog_reflects_feed(cat1, feed),
        trivial_reps(cat1.rows, acc.replaces),
    ensures
        plan_from(cat1.rows, feed, e, acc).inserts == acc.inserts,
        trivial_reps(cat1.rows, plan_from(cat1.rows, feed, e, acc).replaces),
    decreases feed.len() - e,
{
    if e >= feed.len() {
    } else {
        let acc2 = plan_step(cat1.rows, feed, e, acc);
        if !is_alias_entry(feed, e) {
            assert(match first_match(cat1.rows, feed[e].0) {
                Some(j) => cat1.rows[j].externally_managed ==> cat1.rows[j].content
                    == entry_content(feed, e),
                None => false,
            });
            match first_match(cat1.rows, feed[e].0) {
                Some(j) => {
                    lemma_first_match(cat1.rows, feed[e].0);
                    assert(found_at(cat1.rows, feed[e].0, j));
                    if cat1.rows[j].externally_managed {
                        assert(acc2.replaces == acc.replaces.push(
                            (cat1.rows[j].id, entry_content(feed, e)),
                        ));
                        lemma_distinct_ids_find_self(cat1.rows, j);
                        assert forall|k: int|
                            0 <= k < acc2.replaces.len() implies match first_id_match(
                            cat1.rows,
                            (#[trigger] acc2.replaces[k]).0,
                        ) {
                            Some(j2) => cat1.rows[j2] == (CatalogRowV {
                                id: acc2.replaces[k].0,
                                externally_managed: true,
                                content: acc2.replaces[k].1,
                            }),
                            None => false,
                        } by {
                            if k < acc.replaces.len() {
                                assert(acc2.replaces[k] == acc.replaces[k]);
                            } else {
                                assert(acc2.replaces[k] == (
                                    cat1.rows[j].id,
                                    entry_content(feed, e),
                                ));
                            }
                        }
                    }
                },
                None => {
                    assert(false);
                },
            }
        }
        lemma_plan_on_reflecting_catalog(cat1, feed, e + 1, acc2);
        assert(acc2.inserts == acc.inserts);
    }
}

/// Applying only write-back replacements changes nothing.
proof fn lemma_apply_trivial_replaces(
    rows: Seq<CatalogRowV>,
    reps: Seq<(int, RowContentV)>,
    i: int,
)
    requires
        0 <= i <= reps.len(),
        trivial_reps(rows, reps),
    ensures
        apply_replaces(rows, reps, i) == rows,
    decreases reps.len() - i,
{
    if i >= reps.len() {
    } else {
        lemma_first_id_match(rows, reps[i].0);
        match first_id_match(rows, reps[i].0) {
            Some(j) => {
                let row = CatalogRowV {
                    id: reps[i].0,
                    externally_managed: true,
                    content: reps[i].1,
                };
                assert(rows[j] == row);
                assert(rows.update(j, row) =~= rows);
                assert(crate::reconcile::replace_row(rows, reps[i].0, reps[i].1) == rows);
            },
            None => {
                assert(false);
            },
        }
        lemma_apply_trivial_replaces(rows, reps, i + 1);
    }
}

/// Importing a feed into a catalog that already reflects it changes
/// nothing.
proof fn lemma_import_on_reflecting_catalog(cat1: CatalogV, feed: Seq<(Seq<char>, GameV)>)
    requires
        cat1.wf(),
        catalog_reflects_feed(cat1, feed),
    ensures
        import_spec(cat1, feed) == cat1,
{
    let empty = PlanV { inserts: Seq::empty(), replaces: Seq::empty() };
    lemma_plan_on_reflecting_catalog(cat1, feed, 0, empty);
    let plan = reconcile_plan(cat1.rows, feed);
    assert(plan.inserts.len() == 0);
    assert(apply_inserts(cat1.rows, cat1.next_id, plan.inserts, 0) == (cat1.rows, cat1.next_id));
    lemma_apply_trivial_replaces(cat1.rows, plan.replaces, 0);
    assert(import_spec(cat1, feed).rows == cat1.rows);
    assert(import_spec(cat1, feed).next_id == cat1.next_id);
}

/// Idempotence: importing the same feed twice against the same starting
/// catalog leaves the catalog exactly as the first import left it.
pub proof fn lemma_import_idempotent(cat: CatalogV, feed: Seq<(Seq<char>, GameV)>)
    requires
        cat.wf(),
        index_names_unique(feed),
    ensures
        import_spec(import_spec(cat, feed), feed) == import_spec(cat, feed),
{
    lemma_import_structure(cat, feed);
    lemma_import_on_reflecting_catalog(import_spec(cat, feed), feed);
}

/// Ownership: a row that is not externally managed is never touched by
/// reconciliation, whatever the feed holds.
pub proof fn lemma_user_rows_untouched(cat: CatalogV, feed: Seq<(Seq<char>, GameV)>, m: int)
    requires
        cat.wf(),
        index_names_unique(feed),
        0 <= m < cat.rows.len(),
        !cat.rows[m].externally_managed,
    ensures
        import_spec(cat, feed).rows[m] == cat.rows[m],
{
    lemma_import_structure(cat, feed);
}

/// Alias entries never become rows of their own: no row whose canonical
/// name is the alias entry's name is added by an import, and among the
/// rows an import writes, the alias entry's name occurs as a synonym only
/// on rows named like its target.
#[verifier::rlimit(100)]
pub proof fn lemma_alias_contributes_synonym_only(
    cat: CatalogV,
    feed: Seq<(Seq<char>, GameV)>,
    e: int,
)
    requires
        cat.wf(),
        index_names_unique(feed),
        0 <= e < feed.len(),
        is_alias_entry(feed, e),
    ensures
        forall|m: int|
            cat.rows.len() <= m < import_spec(cat, feed).rows.len() ==> (#[trigger] import_spec(
                cat,
                feed,
            ).rows[m]).content.metadata.default_name != feed[e].0,
        forall|m: int|
            0 <= m < import_spec(cat, feed).rows.len() && (m >= cat.rows.len() || import_spec(
                cat,
                feed,
            ).rows[m] != cat.rows[m]) && (#[trigger] import_spec(
                cat,
                feed,
            ).rows[m]).content.metadata.known_name.contains(feed[e].0) ==> feed[e].1.alias == Some(
                import_spec(cat, feed).rows[m].content.metadata.default_name,
            ),
{
    lemma_import_structure(cat, feed);
    let cat1 = import_spec(cat, feed);
    let n = cat.rows.len() as int;
    let plan = reconcile_plan(cat.rows, feed);
    let empty = PlanV { inserts: Seq::empty(), replaces: Seq::empty() };
    lemma_plan_membership(cat.rows, feed, 0, empty);
    let pair = apply_inserts(cat.rows, cat.next_id, plan.inserts, 0);
    lemma_apply_inserts_shape(cat.rows, cat.next_id, plan.inserts, 0, pair.0, pair.1);
    // a row the import wrote carries the derived content of a non-alias entry
    assert forall|m: int|
        0 <= m < cat1.rows.len() && (m >= n || cat1.rows[m] != cat.rows[m]) implies exists|e2: int|
        0 <= e2 < feed.len() && (#[trigger] feed[e2]).1.alias is None
            && cat1.rows[m].content == entry_content(feed, e2) by {
        if m >= n {
            assert(insert_from_entry(cat.rows, feed, 0, cat1.rows[m].content));
            let e2 = choose|e2: int|
                0 <= e2 < feed.len() && #[trigger] is_insert_case(cat.rows, feed, e2)
                    && cat1.rows[m].content == entry_content(feed, e2);
            assert(feed[e2].1.alias is None && cat1.rows[m].content == entry_content(feed, e2));
        } else {
            lemma_written_original_row_content(cat, feed, m);
        }
    }
    assert forall|m: int|
        0 <= m < cat1.rows.len() && (m >= n || cat1.rows[m] != cat.rows[m]) && (
    #[trigger] cat1.rows[m]).content.metadata.known_name.contains(feed[e].0) implies feed[
    e].1.alias == Some(cat1.rows[m].content.metadata.default_name) by {
        let e2 = choose|e2: int|
            0 <= e2 < feed.len() && (#[trigger] feed[e2]).1.alias is None && cat1.rows[m].content
                == entry_content(feed, e2);
        assert(cat1.rows[m].content.metadata.known_name == aliases_of(feed, feed[e2].0));
        lemma_aliases_membership(feed, feed[e2].0, 0, Seq::empty());
        assert(aliases_from(feed, feed[e2].0, 0, Seq::empty()).contains(feed[e].0));
        assert(!Seq::<Seq<char>>::empty().contains(feed[e].0));
        assert(exists|e3: int|
            0 <= e3 < feed.len() && (#[trigger] feed[e3]).0 == feed[e].0 && feed[e3].1.alias
                == Some(feed[e2].0));
        let e3 = choose|e3: int|
            0 <= e3 < feed.len() && (#[trigger] feed[e3]).0 == feed[e].0 && feed[e3].1.alias
                == Some(feed[e2].0);
        if e3 != e {
            if e3 < e {
                assert(feed[e3].0 != feed[e].0);
            } else {
                assert(feed[e].0 != feed[e3].0);
            }
        }
        assert(e3 == e);
        assert(feed[e].1.alias == Some(feed[e2].0));
        assert(cat1.rows[m].content.metadata.default_name == feed[e2].0);
    }
    assert forall|m: int|
        n <= m < cat1.rows.len() implies (#[trigger] cat1.rows[m]).content.metadata.default_name
        != feed[e].0 by {
        assert(insert_from_entry(cat.rows, feed, 0, cat1.rows[m].content));
        let e2 = choose|e2: int|
            0 <= e2 < feed.len() && #[trigger] is_insert_case(cat.rows, feed, e2)
                && cat1.rows[m].content == entry_content(feed, e2);
        assert(cat1.rows[m].content.metadata.default_name == feed[e2].0);
        assert(e2 != e);
    }
}

/// An alias entry's name lands in its target's synonyms: when the feed
/// holds the target as a real entry and the import writes the target's
/// row, that row's known names carry the alias entry's name.
pub proof fn lemma_alias_lands_on_target(
    cat: CatalogV,
    feed: Seq<(Seq<char>, GameV)>,
    e: int,
    t: int,
)
    requires
        cat.wf(),
        index_names_unique(feed),
        0 <= e < feed.len(),
        0 <= t < feed.len(),
        feed[e].1.alias == Some(feed[t].0),
        !is_alias_entry(feed, t),
    ensures
        match first_match(import_spec(cat, feed).rows, feed[t].0) {
            Some(j) => import_spec(cat, feed).rows[j].externally_managed ==> import_spec(
                cat,
                feed,
            ).rows[j].content.metadata.known_name.contains(feed[e].0),
            None => false,
        },
{
    lemma_import_structure(cat, feed);
    let cat1 = import_spec(cat, feed);
    assert(match first_match(cat1.rows, feed[t].0) {
        Some(j) => cat1.rows[j].externally_managed ==> cat1.rows[j].content == entry_content(
            feed,
            t,
        ),
        None => false,
    });
    match first_match(cat1.rows, feed[t].0) {
        Some(j) => {
            if cat1.rows[j].externally_managed {
                assert(cat1.rows[j].content.metadata.known_name == aliases_of(feed, feed[t].0));
                lemma_aliases_membership(feed, feed[t].0, 0, Seq::empty());
                assert(exists|e2: int|
                    0 <= e2 < feed.len() && (#[trigger] feed[e2]).0 == feed[e].0
                        && feed[e2].1.alias == Some(feed[t].0));
                assert(!Seq::<Seq<char>>::empty().contains(feed[e].0));
                assert(aliases_from(feed, feed[t].0, 0, Seq::empty()).contains(feed[e].0));
            }
        },
        None => {},
    }
}

/// An original row the import rewrote carries the derived content of a
/// non-alias entry.
proof fn lemma_written_original_row_content(cat: CatalogV, feed: Seq<(Seq<char>, GameV)>, m: int)
    requires
        cat.wf(),
        index_names_unique(feed),
        0 <= m < cat.rows.len(),
        import_spec(cat, feed).rows[m] != cat.rows[m],
    ensures
        exists|e2: int|
            0 <= e2 < feed.len() && (#[trigger] feed[e2]).1.alias is None && import_spec(
                cat,
                feed,
            ).rows[m].content == entry_content(feed, e2),
{
    let plan = reconcile_plan(cat.rows, feed);
    let empty = PlanV { inserts: Seq::empty(), replaces: Seq::empty() };
    lemma_plan_membership(cat.rows, feed, 0, empty);
    let pair = apply_inserts(cat.rows, cat.next_id, plan.inserts, 0);
    let rows1 = pair.0;
    let next1 = pair.1;
    lemma_apply_inserts_shape(cat.rows, cat.next_id, plan.inserts, 0, rows1, next1);
    let n = cat.rows.len() as int;
    assert forall|a: int, b: int| 0 <= a < b < rows1.len() implies rows1[a].id != rows1[b].id by {
        if b < n {
            assert(rows1[a] == cat.rows[a] && rows1[b] == cat.rows[b]);
        } else if a < n {
            assert(rows1[a] == cat.rows[a]);
            assert(rows1[n + (b - n)].id == cat.next_id + (b - n));
        } else {
            assert(rows1[n + (a - n)].id == cat.next_id + (a - n));
            assert(rows1[n + (b - n)].id == cat.next_id + (b - n));
        }
    }
    let reps = plan.replaces;
    lemma_apply_replaces_effect(rows1, rows1, reps, 0);
    let cat1 = import_spec(cat, feed);
    assert(cat1.rows == apply_replaces(rows1, reps, 0));
    assert(rows1[m] == cat.rows[m]);
    lemma_rep_for_row_char(rows1, reps, 0, m);
    match rep_for_row(rows1, reps, 0, m) {
        Some(c) => {
            let a = choose|a: int|
                0 <= a < reps.len() && (#[trigger] reps[a]).1 == c && first_id_match(
                    rows1,
                    reps[a].0,
                ) == Some(m);
            assert(replace_from_entry(cat.rows, feed, 0, reps[a]));
            let e2 = choose|e2: int|
                0 <= e2 < feed.len() && #[trigger] is_replace_case(cat.rows, feed, e2) && reps[a]
                    == (cat.rows[replace_target(cat.rows, feed, e2)].id, entry_content(feed, e2));
            assert(cat1.rows[m].content == entry_content(feed, e2));
            assert(feed[e2].1.alias is None);
        },
        None => {
            assert(cat1.rows[m] == rows1[m]);
            assert(false);
        },
    }
}

} // verus!
