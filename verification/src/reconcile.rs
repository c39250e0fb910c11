//! Reconciliation of feed content against the catalog without destroying
//! user-authored data.
//!
//! A plan is computed first: for every entry of the feed that is not an
//! alias, the entry's derived row content is queued for insertion when no
//! catalog row carries its name, queued as a full replacement when the
//! matching row is externally managed, and skipped entirely when the
//! matching row is user-entered. An entry whose alias is set contributes
//! only a known-name synonym to its target's row content and never becomes
//! a row of its own. The plan is then applied: insertions as one batch,
//! replacements as another.

use vstd::prelude::*;

use crate::endpoint::{ExecutableCreate, GameMetadataCreate, GameMetadataV, PathPairV,
    SavePathCreate};
use crate::extract::{extract_executable_path_from_game, extract_registry_path_from_game,
    extract_save_path_from_game, i64_to_string, launch_pairs_of_game, registry_paths_of_game,
    save_pairs_of_game, steam_appid_of};
use crate::manifest::{GameIndex, GameV};

verus! {

/// The content of a catalog row, without its identity: metadata plus the
/// owned collections of save paths, executables and registry paths.
#[derive(Debug)]
pub struct NewCatalogRow {
    pub metadata: GameMetadataCreate,
    pub path_to_save: Vec<SavePathCreate>,
    pub executable: Vec<ExecutableCreate>,
    pub registry_path: Vec<String>,
}

/// A catalog row: an id, the flag marking whether reconciliation may
/// overwrite it, and its content.
#[derive(Debug)]
pub struct CatalogRow {
    pub id: i64,
    pub externally_managed: bool,
    pub content: NewCatalogRow,
}

/// The catalog: its rows and the id the next inserted row receives.
#[derive(Debug)]
pub struct Catalog {
    pub rows: Vec<CatalogRow>,
    pub next_id: i64,
}

/// The reconciliation plan: rows to insert and rows to replace, each
/// replacement keyed by the id of the row it overwrites.
#[derive(Debug)]
pub struct ReconcilePlan {
    pub inserts: Vec<NewCatalogRow>,
    pub replaces: Vec<(i64, NewCatalogRow)>,
}

/// Ghost model of row content.
pub struct RowContentV {
    pub metadata: GameMetadataV,
    pub paths: Seq<PathPairV>,
    pub executables: Seq<PathPairV>,
    pub registry: Seq<Seq<char>>,
}

/// Ghost model of a catalog row.
pub struct CatalogRowV {
    pub id: int,
    pub externally_managed: bool,
    pub content: RowContentV,
}

/// Ghost model of the catalog.
pub struct CatalogV {
    pub rows: Seq<CatalogRowV>,
    pub next_id: int,
}

/// Ghost model of a reconciliation plan.
pub struct PlanV {
    pub inserts: Seq<RowContentV>,
    pub replaces: Seq<(int, RowContentV)>,
}

impl View for NewCatalogRow {
    type V = RowContentV;

    open spec fn view(&self) -> RowContentV {
        RowContentV {
            metadata: self.metadata@,
            paths: self.path_to_save.deep_view(),
            executables: self.executable.deep_view(),
            registry: self.registry_path.deep_view(),
        }
    }
}

impl DeepView for NewCatalogRow {
    type V = RowContentV;

    open spec fn deep_view(&self) -> RowContentV {
        self.view()
    }
}

impl View for CatalogRow {
    type V = CatalogRowV;

    open spec fn view(&self) -> CatalogRowV {
        CatalogRowV {
            id: self.id as int,
            externally_managed: self.externally_managed,
            content: self.content@,
        }
    }
}

impl DeepView for CatalogRow {
    type V = CatalogRowV;

    open spec fn deep_view(&self) -> CatalogRowV {
        self.view()
    }
}

impl View for Catalog {
    type V = CatalogV;

    open spec fn view(&self) -> CatalogV {
        CatalogV { rows: self.rows.deep_view(), next_id: self.next_id as int }
    }
}

impl View for ReconcilePlan {
    type V = PlanV;

    open spec fn view(&self) -> PlanV {
        PlanV {
            inserts: self.inserts.deep_view(),
            replaces: Seq::new(
                self.replaces@.len(),
                |i: int| (self.replaces@[i].0 as int, self.replaces@[i].1.deep_view()),
            ),
        }
    }
}

impl CatalogV {
    /// A well-formed catalog has pairwise distinct row ids, all below the
    /// next id to assign.
    pub open spec fn wf(self) -> bool {
        &&& 0 <= self.next_id
        &&& forall|i: int, j: int|
            0 <= i < j < self.rows.len() ==> self.rows[i].id != self.rows[j].id
        &&& forall|i: int| 0 <= i < self.rows.len() ==> 0 <= #[trigger] self.rows[i].id < self.next_id
    }
}

/// The row at `i` is the first one whose canonical name is `name`.
pub open spec fn found_at(rows: Seq<CatalogRowV>, name: Seq<char>, i: int) -> bool {
    &&& 0 <= i < rows.len()
    &&& rows[i].content.metadata.default_name == name
    &&& forall|j: int| 0 <= j < i ==> (#[trigger] rows[j]).content.metadata.default_name != name
}

/// The index of the first row with canonical name `name`, if any.
pub open spec fn first_match(rows: Seq<CatalogRowV>, name: Seq<char>) -> Option<int>
    decreases rows.len(),
{
    if rows.len() == 0 {
        None
    } else if rows[0].content.metadata.default_name == name {
        Some(0)
    } else {
        match first_match(rows.drop_first(), name) {
            Some(i) => Some(i + 1),
            None => None,
        }
    }
}

/// `first_match` finds the first matching row, and `None` means no row
/// matches.
pub proof fn lemma_first_match(rows: Seq<CatalogRowV>, name: Seq<char>)
    ensures
        match first_match(rows, name) {
            Some(i) => found_at(rows, name, i),
            None => forall|j: int|
                0 <= j < rows.len() ==> (#[trigger] rows[j]).content.metadata.default_name != name,
        },
    decreases rows.len(),
{
    if rows.len() == 0 {
    } else if rows[0].content.metadata.default_name == name {
    } else {
        let rest = rows.drop_first();
        lemma_first_match(rest, name);
        match first_match(rest, name) {
            Some(i) => {
                assert(rows[i + 1] == rest[i]);
                assert forall|j: int|
                    0 <= j < i + 1 implies (#[trigger] rows[j]).content.metadata.default_name
                    != name by {
                    if j >= 1 {
                        assert(rest[j - 1] == rows[j]);
                    }
                }
            },
            None => {
                assert forall|j: int|
                    0 <= j < rows.len() implies (#[trigger] rows[j]).content.metadata.default_name
                    != name by {
                    if j >= 1 {
                        assert(rest[j - 1] == rows[j]);
                    }
                }
            },
        }
    }
}

/// The index of the first row with id `id`, if any.
pub open spec fn first_id_match(rows: Seq<CatalogRowV>, id: int) -> Option<int>
    decreases rows.len(),
{
    if rows.len() == 0 {
        None
    } else if rows[0].id == id {
        Some(0)
    } else {
        match first_id_match(rows.drop_first(), id) {
            Some(i) => Some(i + 1),
            None => None,
        }
    }
}

/// `first_id_match` finds the first row with the id, and `None` means no
/// row carries it.
pub proof fn lemma_first_id_match(rows: Seq<CatalogRowV>, id: int)
    ensures
        match first_id_match(rows, id) {
            Some(i) => 0 <= i < rows.len() && rows[i].id == id && (forall|j: int|
                0 <= j < i ==> (#[trigger] rows[j]).id != id),
            None => forall|j: int| 0 <= j < rows.len() ==> (#[trigger] rows[j]).id != id,
        },
    decreases rows.len(),
{
    if rows.len() == 0 {
    } else if rows[0].id == id {
    } else {
        let rest = rows.drop_first();
        lemma_first_id_match(rest, id);
        match first_id_match(rest, id) {
            Some(i) => {
                assert(rows[i + 1] == rest[i]);
                assert forall|j: int| 0 <= j < i + 1 implies (#[trigger] rows[j]).id != id by {
                    if j >= 1 {
                        assert(rest[j - 1] == rows[j]);
                    }
                }
            },
            None => {
                assert forall|j: int| 0 <= j < rows.len() implies (#[trigger] rows[j]).id != id by {
                    if j >= 1 {
                        assert(rest[j - 1] == rows[j]);
                    }
                }
            },
        }
    }
}

/// The names that alias entries contribute to the row of `name`, in feed
/// order, from entry `i` on.
pub open spec fn aliases_from(
    feed: Seq<(Seq<char>, GameV)>,
    name: Seq<char>,
    i: int,
    acc: Seq<Seq<char>>,
) -> Seq<Seq<char>>
    decreases feed.len() - i,
{
    if i < 0 || i >= feed.len() {
        acc
    } else {
        aliases_from(
            feed,
            name,
            i + 1,
            if feed[i].1.alias == Some(name) {
                acc.push(feed[i].0)
            } else {
                acc
            },
        )
    }
}

/// The known-name synonyms of `name` under the feed's alias map.
pub open spec fn aliases_of(feed: Seq<(Seq<char>, GameV)>, name: Seq<char>) -> Seq<Seq<char>> {
    aliases_from(feed, name, 0, Seq::empty())
}

/// The full row content derived from the feed's entry `i`: its metadata
/// with synonyms from the alias map, its executables, save paths and
/// registry paths.
pub open spec fn entry_content(feed: Seq<(Seq<char>, GameV)>, i: int) -> RowContentV {
    RowContentV {
        metadata: GameMetadataV {
            known_name: aliases_of(feed, feed[i].0),
            steam_appid: steam_appid_of(feed[i].1),
            default_name: feed[i].0,
        },
        paths: save_pairs_of_game(feed[i].1),
        executables: launch_pairs_of_game(feed[i].1),
        registry: registry_paths_of_game(feed[i].1),
    }
}

/// The plan's growth for the feed's entry `i`: aliases are skipped, an
/// unknown name queues an insert, an externally managed match queues a
/// replace keyed by the row's id, and a user-entered match is left alone.
pub open spec fn plan_step(
    cat: Seq<CatalogRowV>,
    feed: Seq<(Seq<char>, GameV)>,
    i: int,
    acc: PlanV,
) -> PlanV {
    if feed[i].1.alias is Some {
        acc
    } else {
        let content = entry_content(feed, i);
        match first_match(cat, feed[i].0) {
            None => PlanV { inserts: acc.inserts.push(content), replaces: acc.replaces },
            Some(j) => if cat[j].externally_managed {
                PlanV {
                    inserts: acc.inserts,
                    replaces: acc.replaces.push((cat[j].id, content)),
                }
            } else {
                acc
            },
        }
    }
}

/// The plan accumulated over the feed's entries from `i` on.
pub open spec fn plan_from(
    cat: Seq<CatalogRowV>,
    feed: Seq<(Seq<char>, GameV)>,
    i: int,
    acc: PlanV,
) -> PlanV
    decreases feed.len() - i,
{
    if i < 0 || i >= feed.len() {
        acc
    } else {
        plan_from(cat, feed, i + 1, plan_step(cat, feed, i, acc))
    }
}

/// The reconciliation plan of a feed against a catalog.
pub open spec fn reconcile_plan(cat: Seq<CatalogRowV>, feed: Seq<(Seq<char>, GameV)>) -> PlanV {
    plan_from(cat, feed, 0, PlanV { inserts: Seq::empty(), replaces: Seq::empty() })
}

/// Rows and next id after applying the insert batch from `i` on: each
/// inserted row is appended, externally managed, with the next id.
pub open spec fn apply_inserts(
    rows: Seq<CatalogRowV>,
    next_id: int,
    inserts: Seq<RowContentV>,
    i: int,
) -> (Seq<CatalogRowV>, int)
    decreases inserts.len() - i,
{
    if i < 0 || i >= inserts.len() {
        (rows, next_id)
    } else {
        apply_inserts(
            rows.push(
                CatalogRowV { id: next_id, externally_managed: true, content: inserts[i] },
            ),
            next_id + 1,
            inserts,
            i + 1,
        )
    }
}

/// Overwrite the first row carrying `id` with the given content, marking
/// it externally managed; no row changes when the id is unknown.
pub open spec fn replace_row(rows: Seq<CatalogRowV>, id: int, content: RowContentV) -> Seq<
    CatalogRowV,
> {
    match first_id_match(rows, id) {
        Some(i) => rows.update(i, CatalogRowV { id, externally_managed: true, content }),
        None => rows,
    }
}

/// Rows after applying the replace batch from `i` on.
pub open spec fn apply_replaces(
    rows: Seq<CatalogRowV>,
    replaces: Seq<(int, RowContentV)>,
    i: int,
) -> Seq<CatalogRowV>
    decreases replaces.len() - i,
{
    if i < 0 || i >= replaces.len() {
        rows
    } else {
        apply_replaces(replace_row(rows, replaces[i].0, replaces[i].1), replaces, i + 1)
    }
}

/// The catalog after applying a plan: the insert batch first, then the
/// replace batch.
pub open spec fn apply_plan_spec(cat: CatalogV, plan: PlanV) -> CatalogV {
    let (rows1, next1) = apply_inserts(cat.rows, cat.next_id, plan.inserts, 0);
    CatalogV { rows: apply_replaces(rows1, plan.replaces, 0), next_id: next1 }
}

/// The catalog after one full import of the feed.
pub open spec fn import_spec(cat: CatalogV, feed: Seq<(Seq<char>, GameV)>) -> CatalogV {
    apply_plan_spec(cat, reconcile_plan(cat.rows, feed))
}

impl Catalog {
    /// An empty catalog.
    pub fn new() -> (r: Catalog)
        ensures
            r@.rows == Seq::<CatalogRowV>::empty(),
            r@.next_id == 0,
            r@.wf(),
    {
        let r = Catalog { rows: Vec::new(), next_id: 0 };
        assert(r@.rows =~= Seq::<CatalogRowV>::empty());
        r
    }

    /// All rows of the catalog.
    pub fn list_all(&self) -> (r: &Vec<CatalogRow>)
        ensures
            r.deep_view() == self@.rows,
    {
        &self.rows
    }

    /// The index of the first row whose canonical name is `name`.
    pub fn find_by_name(&self, name: &String) -> (r: Option<usize>)
        ensures
            match r {
                Some(i) => first_match(self@.rows, name@) == Some(i as int),
                None => first_match(self@.rows, name@) is None,
            },
    {
        let ghost rowsv = self@.rows;
        let mut k: usize = 0;
        while k < self.rows.len()
            invariant
                0 <= k <= self.rows.len(),
                rowsv == self.rows.deep_view(),
                forall|m: int|
                    0 <= m < k ==> (#[trigger] rowsv[m]).content.metadata.default_name != name@,
            decreases self.rows.len() - k,
        {
            if self.rows[k].content.metadata.default_name == *name {
                proof {
                    assert(rowsv[k as int].content.metadata.default_name == name@);
                    assert(found_at(rowsv, name@, k as int));
                    lemma_first_match(rowsv, name@);
                    match first_match(rowsv, name@) {
                        Some(i) => {
                            assert(rowsv[i].content.metadata.default_name == name@);
                            assert(i == k as int);
                        },
                        None => {
                            assert(false);
                        },
                    }
                }
                return Some(k);
            }
            k += 1;
        }
        proof {
            lemma_first_match(rowsv, name@);
            match first_match(rowsv, name@) {
                Some(i) => {
                    assert(rowsv[i].content.metadata.default_name == name@);
                    assert(false);
                },
                None => {},
            }
        }
        None
    }

    /// Append one row with the next id. The row is marked externally
    /// managed when reconciliation writes it, user-entered otherwise.
    pub fn insert_row(&mut self, content: NewCatalogRow, externally_managed: bool) -> (id: i64)
        requires
            old(self)@.next_id < i64::MAX,
        ensures
            id == old(self)@.next_id,
            final(self)@.rows == old(self)@.rows.push(
                CatalogRowV {
                    id: old(self)@.next_id,
                    externally_managed,
                    content: content@,
                },
            ),
            final(self)@.next_id == old(self)@.next_id + 1,
            old(self)@.wf() ==> final(self)@.wf(),
    {
        let id = self.next_id;
        let ghost before = self@.rows;
        let ghost contentv = content@;
        self.rows.push(CatalogRow { id, externally_managed, content });
        self.next_id = id + 1;
        proof {
            assert(self@.rows =~= before.push(
                CatalogRowV { id: id as int, externally_managed, content: contentv },
            ));
            if old(self)@.wf() {
                let after = self@;
                assert(after.rows.len() == before.len() + 1);
                assert(after.rows[before.len() as int].id == id as int);
                assert forall|i: int|
                    0 <= i < after.rows.len() implies 0 <= (#[trigger] after.rows[i]).id
                    < after.next_id by {
                    if i < before.len() {
                        assert(after.rows[i] == before[i]);
                        assert(0 <= before[i].id < old(self)@.next_id);
                    } else {
                        assert(after.rows[i].id == id as int);
                    }
                }
                assert forall|i: int, j: int|
                    0 <= i < j < after.rows.len() implies after.rows[i].id != after.rows[j].id by {
                    assert(after.rows[i] == before[i]);
                    assert(0 <= before[i].id < old(self)@.next_id);
                    if j < before.len() {
                        assert(after.rows[j] == before[j]);
                    } else {
                        assert(after.rows[j].id == id as int);
                    }
                }
            }
        }
        id
    }

    /// Submit the insert batch: every queued row is appended, externally
    /// managed, receiving ids in order.
    pub fn insert_batch(&mut self, inserts: Vec<NewCatalogRow>) -> (r: Result<(), ()>)
        requires
            old(self)@.next_id + inserts@.len() <= i64::MAX,
        ensures
            r is Ok,
            (final(self)@.rows, final(self)@.next_id) == apply_inserts(
                old(self)@.rows,
                old(self)@.next_id,
                inserts.deep_view(),
                0,
            ),
            old(self)@.wf() ==> final(self)@.wf(),
    {
        let ghost insertsv = inserts.deep_view();
        let ghost rows0 = self@.rows;
        let ghost next0 = self@.next_id;
        let ghost wf0 = self@.wf();
        let mut k: usize = 0;
        while k < inserts.len()
            invariant
                0 <= k <= inserts.len(),
                insertsv == inserts.deep_view(),
                self@.next_id == next0 + k,
                next0 + insertsv.len() <= i64::MAX,
                apply_inserts(rows0, next0, insertsv, 0) == apply_inserts(
                    self@.rows,
                    self@.next_id,
                    insertsv,
                    k as int,
                ),
                wf0 ==> self@.wf(),
            decreases inserts.len() - k,
        {
            let ghost rows_here = self@.rows;
            let ghost next_here = self@.next_id;
            let content = inserts[k].clone();
            assert(content@ == insertsv[k as int]);
            self.insert_row(content, true);
            k += 1;
        }
        Ok(())
    }

    /// Overwrite the row carrying `id` with the given content, marking it
    /// externally managed; an unknown id changes nothing.
    pub fn replace_by_id(&mut self, id: i64, content: NewCatalogRow)
        ensures
            final(self)@.rows == replace_row(old(self)@.rows, id as int, content@),
            final(self)@.next_id == old(self)@.next_id,
            old(self)@.wf() ==> final(self)@.wf(),
    {
        let ghost rowsv = self@.rows;
        let mut k: usize = 0;
        while k < self.rows.len()
            invariant
                0 <= k <= self.rows.len(),
                self@ == old(self)@,
                rowsv == self.rows.deep_view(),
                forall|m: int| 0 <= m < k ==> (#[trigger] rowsv[m]).id != id as int,
            decreases self.rows.len() - k,
        {
            if self.rows[k].id == id {
                proof {
                    lemma_first_id_match(rowsv, id as int);
                    match first_id_match(rowsv, id as int) {
                        Some(i) => {
                            assert(rowsv[i].id == id as int);
                            assert(i == k as int);
                        },
                        None => {
                            assert(rowsv[k as int].id == id as int);
                            assert(false);
                        },
                    }
                }
                let ghost before = self@.rows;
                let ghost contentv = content@;
                self.rows.set(
                    k,
                    CatalogRow { id, externally_managed: true, content },
                );
                proof {
                    assert(self@.rows =~= before.update(
                        k as int,
                        CatalogRowV {
                            id: id as int,
                            externally_managed: true,
                            content: contentv,
                        },
                    ));
                    assert(before[k as int].id == id as int);
                    if old(self)@.wf() {
                        let after = self@;
                        assert(after.rows.len() == before.len());
                        assert forall|i: int|
                            0 <= i < after.rows.len() implies (#[trigger] after.rows[i]).id
                            == before[i].id by {
                            if i != k as int {
                                assert(after.rows[i] == before[i]);
                            }
                        }
                        assert forall|i: int|
                            0 <= i < after.rows.len() implies 0 <= (#[trigger] after.rows[i]).id
                            < after.next_id by {
                            assert(after.rows[i].id == before[i].id);
                            assert(0 <= before[i].id < old(self)@.next_id);
                        }
                        assert forall|i: int, j: int|
                            0 <= i < j < after.rows.len() implies after.rows[i].id
                            != after.rows[j].id by {
                            assert(after.rows[i].id == before[i].id);
                            assert(after.rows[j].id == before[j].id);
                            assert(0 <= before[i].id < old(self)@.next_id);
                        }
                    }
                }
                return;
            }
            k += 1;
        }
        proof {
            lemma_first_id_match(rowsv, id as int);
            match first_id_match(rowsv, id as int) {
                Some(i) => {
                    assert(rowsv[i].id == id as int);
                    assert(false);
                },
                None => {},
            }
        }
    }

    /// Submit the replace batch: each queued replacement overwrites the
    /// row carrying its id.
    pub fn replace_batch(&mut self, replaces: Vec<(i64, NewCatalogRow)>) -> (r: Result<(), ()>)
        ensures
            r is Ok,
            final(self)@.rows == apply_replaces(
                old(self)@.rows,
                Seq::new(
                    replaces@.len(),
                    |i: int| (replaces@[i].0 as int, replaces@[i].1.deep_view()),
                ),
                0,
            ),
            final(self)@.next_id == old(self)@.next_id,
            old(self)@.wf() ==> final(self)@.wf(),
    {
        let ghost repsv = Seq::new(
            replaces@.len(),
            |i: int| (replaces@[i].0 as int, replaces@[i].1.deep_view()),
        );
        let ghost rows0 = self@.rows;
        let ghost wf0 = self@.wf();
        let mut k: usize = 0;
        while k < replaces.len()
            invariant
                0 <= k <= replaces.len(),
                repsv == Seq::new(
                    replaces@.len(),
                    |i: int| (replaces@[i].0 as int, replaces@[i].1.deep_view()),
                ),
                self@.next_id == old(self)@.next_id,
                apply_replaces(rows0, repsv, 0) == apply_replaces(self@.rows, repsv, k as int),
                wf0 ==> self@.wf(),
            decreases replaces.len() - k,
        {
            let id = replaces[k].0;
            let content = replaces[k].1.clone();
            assert(repsv[k as int] == (id as int, content@));
            self.replace_by_id(id, content);
            k += 1;
        }
        Ok(())
    }
}

impl Clone for NewCatalogRow {
    fn clone(&self) -> (r: Self)
        ensures
            r@ == self@,
    {
        let path_to_save = self.path_to_save.clone();
        proof {
            assert forall|i: int|
                0 <= i < path_to_save@.len() implies path_to_save@[i]@
                == self.path_to_save@[i]@ by {
                assert(cloned::<SavePathCreate>(self.path_to_save[i], path_to_save[i]));
            }
            assert(path_to_save.deep_view() =~= self.path_to_save.deep_view());
        }
        let executable = self.executable.clone();
        proof {
            assert forall|i: int|
                0 <= i < executable@.len() implies executable@[i]@ == self.executable@[i]@ by {
                assert(cloned::<ExecutableCreate>(self.executable[i], executable[i]));
            }
            assert(executable.deep_view() =~= self.executable.deep_view());
        }
        let registry_path = self.registry_path.clone();
        proof {
            assert forall|i: int|
                0 <= i < registry_path@.len() implies registry_path@[i]@
                == self.registry_path@[i]@ by {
                assert(cloned::<String>(self.registry_path[i], registry_path[i]));
            }
            assert(registry_path.deep_view() =~= self.registry_path.deep_view());
        }
        NewCatalogRow { metadata: self.metadata.clone(), path_to_save, executable, registry_path }
    }
}

/// The names that alias entries contribute to the row of `name`: every
/// feed entry whose alias names `name`, in feed order.
fn collect_aliases(feed: &GameIndex, name: &String) -> (r: Vec<String>)
    ensures
        r.deep_view() == aliases_of(feed@, name@),
{
    let ghost feedv = feed@;
    let mut result: Vec<String> = Vec::new();
    assert(result.deep_view() =~= Seq::<Seq<char>>::empty());
    let mut k: usize = 0;
    while k < feed.entries.len()
        invariant
            0 <= k <= feed.entries.len(),
            feedv == feed.entries.deep_view(),
            aliases_of(feedv, name@) == aliases_from(feedv, name@, k as int, result.deep_view()),
        decreases feed.entries.len() - k,
    {
        let (entry_name, game) = &feed.entries[k];
        assert(feedv[k as int] == (entry_name@, game@));
        let is_alias_of_name = match &game.alias {
            Some(a) => {
                assert(game@.alias == Some(a@));
                let hit = *a == *name;
                assert(hit ==> game@.alias == Some(name@));
                assert(!hit ==> game@.alias != Some(name@));
                hit
            },
            None => {
                assert(game@.alias is None);
                false
            },
        };
        assert(is_alias_of_name == (game@.alias == Some(name@)));
        if is_alias_of_name {
            let ghost before = result.deep_view();
            result.push(entry_name.clone());
            assert(result.deep_view() =~= before.push(entry_name@));
        }
        k += 1;
    }
    result
}

/// The full row content derived from one feed entry.
fn build_entry_content(feed: &GameIndex, k: usize) -> (r: NewCatalogRow)
    requires
        k < feed.entries.len(),
    ensures
        r@ == entry_content(feed@, k as int),
{
    let (name, game) = &feed.entries[k];
    assert(feed@[k as int] == (name@, game@));
    let steam_appid = match &game.steam {
        Some(s) => match s.id {
            Some(id) => Some(i64_to_string(id)),
            None => None,
        },
        None => None,
    };
    let metadata = GameMetadataCreate {
        known_name: collect_aliases(feed, name),
        steam_appid,
        default_name: name.clone(),
    };
    NewCatalogRow {
        metadata,
        path_to_save: extract_save_path_from_game(game),
        executable: extract_executable_path_from_game(game),
        registry_path: extract_registry_path_from_game(game),
    }
}

/// Diff the feed against the catalog: decide insert, replace or skip for
/// every entry, without touching the catalog.
pub fn reconcile(catalog: &Catalog, feed: &GameIndex) -> (plan: ReconcilePlan)
    ensures
        plan@ == reconcile_plan(catalog@.rows, feed@),
{
    let ghost feedv = feed@;
    let ghost catv = catalog@.rows;
    let mut plan = ReconcilePlan { inserts: Vec::new(), replaces: Vec::new() };
    assert(plan@.inserts =~= Seq::<RowContentV>::empty());
    assert(plan@.replaces =~= Seq::<(int, RowContentV)>::empty());
    let mut k: usize = 0;
    while k < feed.entries.len()
        invariant
            0 <= k <= feed.entries.len(),
            feedv == feed.entries.deep_view(),
            catv == catalog@.rows,
            reconcile_plan(catv, feedv) == plan_from(catv, feedv, k as int, plan@),
        decreases feed.entries.len() - k,
    {
        let ghost plan_before = plan@;
        let (name, game) = &feed.entries[k];
        assert(feedv[k as int] == (name@, game@));
        if game.alias.is_none() {
            let content = build_entry_content(feed, k);
            match catalog.find_by_name(name) {
                None => {
                    let ghost before = plan@.inserts;
                    plan.inserts.push(content);
                    assert(plan@.inserts =~= before.push(entry_content(feedv, k as int)));
                    assert(plan@.replaces =~= plan_before.replaces);
                },
                Some(j) => {
                    proof {
                        lemma_first_match(catv, name@);
                        assert(found_at(catv, name@, j as int));
                    }
                    if catalog.rows[j].externally_managed {
                        let id = catalog.rows[j].id;
                        assert(catv[j as int].id == id as int);
                        let ghost before = plan@.replaces;
                        plan.replaces.push((id, content));
                        assert(plan@.replaces =~= before.push(
                            (id as int, entry_content(feedv, k as int)),
                        ));
                        assert(plan@.inserts =~= plan_before.inserts);
                    } else {
                        assert(catv[j as int].externally_managed == false);
                    }
                },
            }
        }
        proof {
            assert(plan@ == plan_step(catv, feedv, k as int, plan_before));
        }
        k += 1;
    }
    plan
}

/// Apply a reconciliation plan to the catalog: the insert batch first,
/// then the replace batch.
pub fn apply_plan(catalog: &mut Catalog, plan: ReconcilePlan)
    requires
        old(catalog)@.next_id + plan@.inserts.len() <= i64::MAX,
    ensures
        final(catalog)@ == apply_plan_spec(old(catalog)@, plan@),
        old(catalog)@.wf() ==> final(catalog)@.wf(),
{
    let ReconcilePlan { inserts, replaces } = plan;
    let _inserted = catalog.insert_batch(inserts);
    let _replaced = catalog.replace_batch(replaces);
}

/// One full import: diff the feed against the catalog, then apply the
/// resulting plan.
pub fn import_manifest(catalog: &mut Catalog, feed: &GameIndex)
    requires
        old(catalog)@.next_id + feed@.len() <= i64::MAX,
    ensures
        final(catalog)@ == import_spec(old(catalog)@, feed@),
        old(catalog)@.wf() ==> final(catalog)@.wf(),
{
    let plan = reconcile(catalog, feed);
    proof {
        lemma_plan_insert_count(
            catalog@.rows,
            feed@,
            0,
            PlanV { inserts: Seq::empty(), replaces: Seq::empty() },
        );
    }
    apply_plan(catalog, plan);
}

/// The plan queues at most one insert per remaining feed entry.
proof fn lemma_plan_insert_count(
    cat: Seq<CatalogRowV>,
    feed: Seq<(Seq<char>, GameV)>,
    i: int,
    acc: PlanV,
)
    ensures
        plan_from(cat, feed, i, acc).inserts.len() <= acc.inserts.len() + (if i < feed.len() {
            feed.len() - i
        } else {
            0
        }),
    decreases feed.len() - i,
{
    if i < 0 || i >= feed.len() {
    } else {
        lemma_plan_insert_count(cat, feed, i + 1, plan_step(cat, feed, i, acc));
    }
}

} // verus!
