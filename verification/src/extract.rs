//! Extraction of typed facts from a feed entry: save paths, executables and
//! registry paths, each constraint clause mapped to an operating-system
//! applicability value. A clause without an OS constraint applies regardless
//! of operating system (`OS::Undefined`), not "unknown". Resulting
//! (path, OS) pairs are deduplicated, keeping first occurrences in rule
//! order; registry rules are emitted as bare paths.

use vstd::prelude::*;

use crate::endpoint::{ExecutableCreate, GameMetadataCreate, PathPairV, SavePathCreate, OS};
use crate::manifest::{
    FileConstraint, FileRuleV, Game, GameV, LaunchConstraint, LaunchEntryV, Os, RegistryRuleV, Tag,
};

verus! {

/// How a clause's OS constraint maps to catalog applicability: Linux and
/// Windows carry over, an absent constraint means unconstrained, and any
/// other operating system makes the clause irrelevant.
pub open spec fn map_os(os: Option<Os>) -> Option<OS> {
    match os {
        Some(Os::Linux) => Some(OS::Linux),
        Some(Os::Windows) => Some(OS::Windows),
        None => Some(OS::Undefined),
        Some(_) => None,
    }
}

pub fn map_constraint_os(os: &Option<Os>) -> (r: Option<OS>)
    ensures
        r == map_os(*os),
{
    match os {
        Some(Os::Linux) => Some(OS::Linux),
        Some(Os::Windows) => Some(OS::Windows),
        None => Some(OS::Undefined),
        Some(_) => None,
    }
}

/// Whether a rule's tag list marks it as a save rule.
pub open spec fn has_save_tag(tags: Seq<Tag>) -> bool {
    exists|i: int| 0 <= i < tags.len() && tags[i] == Tag::Save
}

/// Whether a (path, OS) pair already occurs in a sequence of pairs.
pub open spec fn pair_in(s: Seq<PathPairV>, path: Seq<char>, os: OS) -> bool {
    exists|i: int| 0 <= i < s.len() && (#[trigger] s[i]).path == path && s[i].os == os
}

/// Append a pair unless it is already present.
pub open spec fn dedup_push(acc: Seq<PathPairV>, path: Seq<char>, os: OS) -> Seq<PathPairV> {
    if pair_in(acc, path, os) {
        acc
    } else {
        acc.push(PathPairV { path, os })
    }
}

/// Fold one file rule's constraint clauses into the accumulated pairs.
pub open spec fn add_file_constraints(
    acc: Seq<PathPairV>,
    path: Seq<char>,
    cs: Seq<FileConstraint>,
) -> Seq<PathPairV>
    decreases cs.len(),
{
    if cs.len() == 0 {
        acc
    } else {
        let acc2 = match map_os(cs[0].os) {
            Some(os) => dedup_push(acc, path, os),
            None => acc,
        };
        add_file_constraints(acc2, path, cs.drop_first())
    }
}

/// Fold a game's file rules into the accumulated pairs: only save-tagged
/// rules contribute.
pub open spec fn add_file_rules(
    acc: Seq<PathPairV>,
    files: Seq<(Seq<char>, FileRuleV)>,
) -> Seq<PathPairV>
    decreases files.len(),
{
    if files.len() == 0 {
        acc
    } else {
        let acc2 = if has_save_tag(files[0].1.tags) {
            add_file_constraints(acc, files[0].0, files[0].1.when)
        } else {
            acc
        };
        add_file_rules(acc2, files.drop_first())
    }
}

/// The save paths of a game entry, with OS applicability, deduplicated in
/// rule order.
pub open spec fn save_pairs_of_game(g: GameV) -> Seq<PathPairV> {
    add_file_rules(Seq::empty(), g.files)
}

/// Fold one launch entry's constraint clauses into the accumulated pairs.
pub open spec fn add_launch_constraints(
    acc: Seq<PathPairV>,
    path: Seq<char>,
    cs: Seq<LaunchConstraint>,
) -> Seq<PathPairV>
    decreases cs.len(),
{
    if cs.len() == 0 {
        acc
    } else {
        let acc2 = match map_os(cs[0].os) {
            Some(os) => dedup_push(acc, path, os),
            None => acc,
        };
        add_launch_constraints(acc2, path, cs.drop_first())
    }
}

/// Fold the launch entries of one executable into the accumulated pairs.
pub open spec fn add_launch_entries(
    acc: Seq<PathPairV>,
    path: Seq<char>,
    es: Seq<LaunchEntryV>,
) -> Seq<PathPairV>
    decreases es.len(),
{
    if es.len() == 0 {
        acc
    } else {
        add_launch_entries(add_launch_constraints(acc, path, es[0].when), path, es.drop_first())
    }
}

/// Fold a game's launch rules into the accumulated pairs.
pub open spec fn add_launch_rules(
    acc: Seq<PathPairV>,
    ls: Seq<(Seq<char>, Seq<LaunchEntryV>)>,
) -> Seq<PathPairV>
    decreases ls.len(),
{
    if ls.len() == 0 {
        acc
    } else {
        add_launch_rules(add_launch_entries(acc, ls[0].0, ls[0].1), ls.drop_first())
    }
}

/// The executables of a game entry, with OS applicability, deduplicated in
/// rule order.
pub open spec fn launch_pairs_of_game(g: GameV) -> Seq<PathPairV> {
    add_launch_rules(Seq::empty(), g.launch)
}

/// Whether a registry path already occurs in the accumulated paths.
pub open spec fn reg_in(s: Seq<Seq<char>>, path: Seq<char>) -> bool {
    exists|i: int| 0 <= i < s.len() && #[trigger] s[i] == path
}

/// Fold a game's registry rules into the accumulated bare paths: only
/// save-tagged rules contribute, without an OS dimension.
pub open spec fn add_registry_rules(
    acc: Seq<Seq<char>>,
    rs: Seq<(Seq<char>, RegistryRuleV)>,
) -> Seq<Seq<char>>
    decreases rs.len(),
{
    if rs.len() == 0 {
        acc
    } else {
        let acc2 = if has_save_tag(rs[0].1.tags) && !reg_in(acc, rs[0].0) {
            acc.push(rs[0].0)
        } else {
            acc
        };
        add_registry_rules(acc2, rs.drop_first())
    }
}

/// The registry paths of a game entry, deduplicated in rule order.
pub open spec fn registry_paths_of_game(g: GameV) -> Seq<Seq<char>> {
    add_registry_rules(Seq::empty(), g.registry)
}

/// No (path, OS) pair occurs twice.
pub open spec fn pairs_distinct(s: Seq<PathPairV>) -> bool {
    forall|i: int, j: int|
        0 <= i < j < s.len() ==> !((#[trigger] s[i]).path == (#[trigger] s[j]).path && s[i].os
            == s[j].os)
}

/// No registry path occurs twice.
pub open spec fn reg_paths_distinct(s: Seq<Seq<char>>) -> bool {
    forall|i: int, j: int| 0 <= i < j < s.len() ==> s[i] != s[j]
}

proof fn lemma_dedup_push_distinct(acc: Seq<PathPairV>, path: Seq<char>, os: OS)
    requires
        pairs_distinct(acc),
    ensures
        pairs_distinct(dedup_push(acc, path, os)),
{
    if !pair_in(acc, path, os) {
        let out = acc.push(PathPairV { path, os });
        assert forall|i: int, j: int|
            0 <= i < j < out.len() implies !((#[trigger] out[i]).path == (#[trigger] out[j]).path
            && out[i].os == out[j].os) by {
            if j < acc.len() {
                assert(out[i] == acc[i] && out[j] == acc[j]);
            } else {
                assert(out[i] == acc[i]);
                assert(out[j] == (PathPairV { path, os }));
            }
        }
    }
}

proof fn lemma_add_file_constraints_distinct(
    acc: Seq<PathPairV>,
    path: Seq<char>,
    cs: Seq<FileConstraint>,
)
    requires
        pairs_distinct(acc),
    ensures
        pairs_distinct(add_file_constraints(acc, path, cs)),
    decreases cs.len(),
{
    if cs.len() > 0 {
        match map_os(cs[0].os) {
            Some(os) => {
                lemma_dedup_push_distinct(acc, path, os);
                lemma_add_file_constraints_distinct(dedup_push(acc, path, os), path, cs.drop_first());
            },
            None => {
                lemma_add_file_constraints_distinct(acc, path, cs.drop_first());
            },
        }
    }
}

proof fn lemma_add_file_rules_distinct(acc: Seq<PathPairV>, files: Seq<(Seq<char>, FileRuleV)>)
    requires
        pairs_distinct(acc),
    ensures
        pairs_distinct(add_file_rules(acc, files)),
    decreases files.len(),
{
    if files.len() > 0 {
        if has_save_tag(files[0].1.tags) {
            lemma_add_file_constraints_distinct(acc, files[0].0, files[0].1.when);
            lemma_add_file_rules_distinct(
                add_file_constraints(acc, files[0].0, files[0].1.when),
                files.drop_first(),
            );
        } else {
            lemma_add_file_rules_distinct(acc, files.drop_first());
        }
    }
}

/// The save paths extracted from a game entry are deduplicated: no
/// (path, OS) pair is emitted twice.
pub proof fn lemma_save_pairs_distinct(g: GameV)
    ensures
        pairs_distinct(save_pairs_of_game(g)),
{
    lemma_add_file_rules_distinct(Seq::empty(), g.files);
}

proof fn lemma_add_launch_constraints_distinct(
    acc: Seq<PathPairV>,
    path: Seq<char>,
    cs: Seq<LaunchConstraint>,
)
    requires
        pairs_distinct(acc),
    ensures
        pairs_distinct(add_launch_constraints(acc, path, cs)),
    decreases cs.len(),
{
    if cs.len() > 0 {
        match map_os(cs[0].os) {
            Some(os) => {
                lemma_dedup_push_distinct(acc, path, os);
                lemma_add_launch_constraints_distinct(
                    dedup_push(acc, path, os),
                    path,
                    cs.drop_first(),
                );
            },
            None => {
                lemma_add_launch_constraints_distinct(acc, path, cs.drop_first());
            },
        }
    }
}

proof fn lemma_add_launch_entries_distinct(
    acc: Seq<PathPairV>,
    path: Seq<char>,
    es: Seq<LaunchEntryV>,
)
    requires
        pairs_distinct(acc),
    ensures
        pairs_distinct(add_launch_entries(acc, path, es)),
    decreases es.len(),
{
    if es.len() > 0 {
        lemma_add_launch_constraints_distinct(acc, path, es[0].when);
        lemma_add_launch_entries_distinct(
            add_launch_constraints(acc, path, es[0].when),
            path,
            es.drop_first(),
        );
    }
}

proof fn lemma_add_launch_rules_distinct(
    acc: Seq<PathPairV>,
    ls: Seq<(Seq<char>, Seq<LaunchEntryV>)>,
)
    requires
        pairs_distinct(acc),
    ensures
        pairs_distinct(add_launch_rules(acc, ls)),
    decreases ls.len(),
{
    if ls.len() > 0 {
        lemma_add_launch_entries_distinct(acc, ls[0].0, ls[0].1);
        lemma_add_launch_rules_distinct(add_launch_entries(acc, ls[0].0, ls[0].1), ls.drop_first());
    }
}

/// The executables extracted from a game entry are deduplicated: no
/// (executable, OS) pair is emitted twice.
pub proof fn lemma_launch_pairs_distinct(g: GameV)
    ensures
        pairs_distinct(launch_pairs_of_game(g)),
{
    lemma_add_launch_rules_distinct(Seq::empty(), g.launch);
}

proof fn lemma_add_registry_rules_distinct(
    acc: Seq<Seq<char>>,
    rs: Seq<(Seq<char>, RegistryRuleV)>,
)
    requires
        reg_paths_distinct(acc),
    ensures
        reg_paths_distinct(add_registry_rules(acc, rs)),
    decreases rs.len(),
{
    if rs.len() > 0 {
        if has_save_tag(rs[0].1.tags) && !reg_in(acc, rs[0].0) {
            let out = acc.push(rs[0].0);
            assert forall|i: int, j: int| 0 <= i < j < out.len() implies out[i] != out[j] by {
                if j < acc.len() {
                    assert(out[i] == acc[i] && out[j] == acc[j]);
                } else {
                    assert(out[i] == acc[i]);
                    assert(out[j] == rs[0].0);
                }
            }
            lemma_add_registry_rules_distinct(out, rs.drop_first());
        } else {
            lemma_add_registry_rules_distinct(acc, rs.drop_first());
        }
    }
}

/// The registry paths extracted from a game entry are deduplicated: no
/// path is emitted twice.
pub proof fn lemma_registry_paths_distinct(g: GameV)
    ensures
        reg_paths_distinct(registry_paths_of_game(g)),
{
    lemma_add_registry_rules_distinct(Seq::empty(), g.registry);
}

/// Some save-tagged file rule of the sequence derives the pair: the rule
/// carries the path, and one of its clauses maps to the OS value.
pub open spec fn file_rules_derive(
    files: Seq<(Seq<char>, FileRuleV)>,
    path: Seq<char>,
    os: OS,
) -> bool {
    exists|i: int, j: int|
        0 <= i < files.len() && has_save_tag((#[trigger] files[i]).1.tags) && 0 <= j
            < files[i].1.when.len() && files[i].0 == path && map_os(
            #[trigger] files[i].1.when[j].os,
        ) == Some(os)
}

proof fn lemma_dedup_push_membership(
    acc: Seq<PathPairV>,
    path: Seq<char>,
    os: OS,
    p: Seq<char>,
    o: OS,
)
    ensures
        pair_in(dedup_push(acc, path, os), p, o) <==> pair_in(acc, p, o) || (p == path && o == os),
{
    if pair_in(acc, path, os) {
        if p == path && o == os {
        }
    } else {
        let out = acc.push(PathPairV { path, os });
        if pair_in(out, p, o) {
            let i = choose|i: int|
                0 <= i < out.len() && (#[trigger] out[i]).path == p && out[i].os == o;
            if i < acc.len() {
                assert(acc[i] == out[i]);
            } else {
                assert(out[i] == (PathPairV { path, os }));
            }
        }
        if pair_in(acc, p, o) {
            let i = choose|i: int|
                0 <= i < acc.len() && (#[trigger] acc[i]).path == p && acc[i].os == o;
            assert(out[i] == acc[i]);
        }
        if p == path && o == os {
            assert(out[acc.len() as int] == (PathPairV { path, os }));
        }
    }
}

proof fn lemma_add_file_constraints_membership(
    acc: Seq<PathPairV>,
    path: Seq<char>,
    cs: Seq<FileConstraint>,
    p: Seq<char>,
    o: OS,
)
    ensures
        pair_in(add_file_constraints(acc, path, cs), p, o) <==> pair_in(acc, p, o) || (p == path
            && exists|j: int| 0 <= j < cs.len() && map_os(#[trigger] cs[j].os) == Some(o)),
    decreases cs.len(),
{
    if cs.len() == 0 {
    } else {
        let acc2 = match map_os(cs[0].os) {
            Some(os) => dedup_push(acc, path, os),
            None => acc,
        };
        match map_os(cs[0].os) {
            Some(os) => {
                lemma_dedup_push_membership(acc, path, os, p, o);
            },
            None => {},
        }
        lemma_add_file_constraints_membership(acc2, path, cs.drop_first(), p, o);
        assert forall|j: int|
            0 <= j < cs.drop_first().len() implies #[trigger] cs.drop_first()[j].os == cs[j
            + 1].os by {
            assert(cs.drop_first()[j] == cs[j + 1]);
        }
        if exists|j: int| 0 <= j < cs.len() && map_os(#[trigger] cs[j].os) == Some(o) {
            let j = choose|j: int| 0 <= j < cs.len() && map_os(#[trigger] cs[j].os) == Some(o);
            if j > 0 {
                assert(cs.drop_first()[j - 1] == cs[j]);
                assert(map_os(cs.drop_first()[j - 1].os) == Some(o));
            }
        }
    }
}

proof fn lemma_add_file_rules_membership(
    acc: Seq<PathPairV>,
    files: Seq<(Seq<char>, FileRuleV)>,
    p: Seq<char>,
    o: OS,
)
    ensures
        pair_in(add_file_rules(acc, files), p, o) <==> pair_in(acc, p, o) || file_rules_derive(
            files,
            p,
            o,
        ),
    decreases files.len(),
{
    if files.len() == 0 {
    } else {
        let acc2 = if has_save_tag(files[0].1.tags) {
            add_file_constraints(acc, files[0].0, files[0].1.when)
        } else {
            acc
        };
        if has_save_tag(files[0].1.tags) {
            lemma_add_file_constraints_membership(acc, files[0].0, files[0].1.when, p, o);
        }
        lemma_add_file_rules_membership(acc2, files.drop_first(), p, o);
        assert forall|i: int|
            0 <= i < files.drop_first().len() implies #[trigger] files.drop_first()[i] == files[i
            + 1] by {}
        if file_rules_derive(files, p, o) {
            let (i, j) = choose|i: int, j: int|
                0 <= i < files.len() && has_save_tag((#[trigger] files[i]).1.tags) && 0 <= j
                    < files[i].1.when.len() && files[i].0 == p && map_os(
                    #[trigger] files[i].1.when[j].os,
                ) == Some(o);
            if i == 0 {
                assert(pair_in(acc2, p, o)) by {
                    lemma_add_file_constraints_membership(acc, files[0].0, files[0].1.when, p, o);
                }
            } else {
                assert(files.drop_first()[i - 1] == files[i]);
                assert(file_rules_derive(files.drop_first(), p, o));
            }
        }
        if file_rules_derive(files.drop_first(), p, o) {
            let (i, j) = choose|i: int, j: int|
                0 <= i < files.drop_first().len() && has_save_tag(
                    (#[trigger] files.drop_first()[i]).1.tags,
                ) && 0 <= j < files.drop_first()[i].1.when.len() && files.drop_first()[i].0 == p
                    && map_os(#[trigger] files.drop_first()[i].1.when[j].os) == Some(o);
            assert(files.drop_first()[i] == files[i + 1]);
            assert(file_rules_derive(files, p, o));
        }
    }
}

/// What the save-path extraction emits, exactly: a (path, OS) pair stands
/// in a game entry's save paths precisely when some save-tagged file rule
/// derives it.
pub proof fn lemma_save_pairs_membership(g: GameV, path: Seq<char>, os: OS)
    ensures
        pair_in(save_pairs_of_game(g), path, os) <==> file_rules_derive(g.files, path, os),
{
    lemma_add_file_rules_membership(Seq::empty(), g.files, path, os);
}

/// Some launch rule of the sequence derives the pair: the rule carries
/// the executable, and one of its entries has a clause mapping to the OS
/// value.
pub open spec fn launch_rules_derive(
    ls: Seq<(Seq<char>, Seq<LaunchEntryV>)>,
    path: Seq<char>,
    os: OS,
) -> bool {
    exists|i: int, e: int, j: int|
        0 <= i < ls.len() && 0 <= e < (#[trigger] ls[i]).1.len() && 0 <= j < ls[i].1[e].when.len()
            && ls[i].0 == path && map_os(#[trigger] ls[i].1[e].when[j].os) == Some(os)
}

proof fn lemma_add_launch_constraints_membership(
    acc: Seq<PathPairV>,
    path: Seq<char>,
    cs: Seq<LaunchConstraint>,
    p: Seq<char>,
    o: OS,
)
    ensures
        pair_in(add_launch_constraints(acc, path, cs), p, o) <==> pair_in(acc, p, o) || (p == path
            && exists|j: int| 0 <= j < cs.len() && map_os(#[trigger] cs[j].os) == Some(o)),
    decreases cs.len(),
{
    if cs.len() == 0 {
    } else {
        let acc2 = match map_os(cs[0].os) {
            Some(os) => dedup_push(acc, path, os),
            None => acc,
        };
        match map_os(cs[0].os) {
            Some(os) => {
                lemma_dedup_push_membership(acc, path, os, p, o);
            },
            None => {},
        }
        lemma_add_launch_constraints_membership(acc2, path, cs.drop_first(), p, o);
        assert forall|j: int|
            0 <= j < cs.drop_first().len() implies #[trigger] cs.drop_first()[j].os == cs[j
            + 1].os by {
            assert(cs.drop_first()[j] == cs[j + 1]);
        }
        if exists|j: int| 0 <= j < cs.len() && map_os(#[trigger] cs[j].os) == Some(o) {
            let j = choose|j: int| 0 <= j < cs.len() && map_os(#[trigger] cs[j].os) == Some(o);
            if j > 0 {
                assert(cs.drop_first()[j - 1] == cs[j]);
                assert(map_os(cs.drop_first()[j - 1].os) == Some(o));
            }
        }
    }
}

proof fn lemma_add_launch_entries_membership(
    acc: Seq<PathPairV>,
    path: Seq<char>,
    es: Seq<LaunchEntryV>,
    p: Seq<char>,
    o: OS,
)
    ensures
        pair_in(add_launch_entries(acc, path, es), p, o) <==> pair_in(acc, p, o) || (p == path
            && exists|e: int, j: int|
            0 <= e < es.len() && 0 <= j < (#[trigger] es[e]).when.len() && map_os(
                #[trigger] es[e].when[j].os,
            ) == Some(o)),
    decreases es.len(),
{
    if es.len() == 0 {
    } else {
        let acc2 = add_launch_constraints(acc, path, es[0].when);
        lemma_add_launch_constraints_membership(acc, path, es[0].when, p, o);
        lemma_add_launch_entries_membership(acc2, path, es.drop_first(), p, o);
        if exists|e: int, j: int|
            0 <= e < es.len() && 0 <= j < (#[trigger] es[e]).when.len() && map_os(
                #[trigger] es[e].when[j].os,
            ) == Some(o) {
            let (e, j) = choose|e: int, j: int|
                0 <= e < es.len() && 0 <= j < (#[trigger] es[e]).when.len() && map_os(
                    #[trigger] es[e].when[j].os,
                ) == Some(o);
            if e > 0 {
                assert(es.drop_first()[e - 1] == es[e]);
                assert(map_os(es.drop_first()[e - 1].when[j].os) == Some(o));
            }
        }
        if exists|e: int, j: int|
            0 <= e < es.drop_first().len() && 0 <= j < (#[trigger] es.drop_first()[e]).when.len()
                && map_os(#[trigger] es.drop_first()[e].when[j].os) == Some(o) {
            let (e, j) = choose|e: int, j: int|
                0 <= e < es.drop_first().len() && 0 <= j < (
                #[trigger] es.drop_first()[e]).when.len() && map_os(
                    #[trigger] es.drop_first()[e].when[j].os,
                ) == Some(o);
            assert(es.drop_first()[e] == es[e + 1]);
            assert(map_os(es[e + 1].when[j].os) == Some(o));
        }
    }
}

proof fn lemma_add_launch_rules_membership(
    acc: Seq<PathPairV>,
    ls: Seq<(Seq<char>, Seq<LaunchEntryV>)>,
    p: Seq<char>,
    o: OS,
)
    ensures
        pair_in(add_launch_rules(acc, ls), p, o) <==> pair_in(acc, p, o) || launch_rules_derive(
            ls,
            p,
            o,
        ),
    decreases ls.len(),
{
    if ls.len() == 0 {
    } else {
        let acc2 = add_launch_entries(acc, ls[0].0, ls[0].1);
        lemma_add_launch_entries_membership(acc, ls[0].0, ls[0].1, p, o);
        lemma_add_launch_rules_membership(acc2, ls.drop_first(), p, o);
        if launch_rules_derive(ls, p, o) {
            let (i, e, j) = choose|i: int, e: int, j: int|
                0 <= i < ls.len() && 0 <= e < (#[trigger] ls[i]).1.len() && 0 <= j
                    < ls[i].1[e].when.len() && ls[i].0 == p && map_os(
                    #[trigger] ls[i].1[e].when[j].os,
                ) == Some(o);
            if i == 0 {
                assert(pair_in(acc2, p, o)) by {
                    lemma_add_launch_entries_membership(acc, ls[0].0, ls[0].1, p, o);
                }
            } else {
                assert(ls.drop_first()[i - 1] == ls[i]);
                assert(launch_rules_derive(ls.drop_first(), p, o));
            }
        }
        if launch_rules_derive(ls.drop_first(), p, o) {
            let (i, e, j) = choose|i: int, e: int, j: int|
                0 <= i < ls.drop_first().len() && 0 <= e < (#[trigger] ls.drop_first()[i]).1.len()
                    && 0 <= j < ls.drop_first()[i].1[e].when.len() && ls.drop_first()[i].0 == p
                    && map_os(#[trigger] ls.drop_first()[i].1[e].when[j].os) == Some(o);
            assert(ls.drop_first()[i] == ls[i + 1]);
            assert(launch_rules_derive(ls, p, o));
        }
    }
}

/// What the executable extraction emits, exactly: an (executable, OS)
/// pair stands in a game entry's executables precisely when some launch
/// rule derives it.
pub proof fn lemma_launch_pairs_membership(g: GameV, path: Seq<char>, os: OS)
    ensures
        pair_in(launch_pairs_of_game(g), path, os) <==> launch_rules_derive(g.launch, path, os),
{
    lemma_add_launch_rules_membership(Seq::empty(), g.launch, path, os);
}

/// Some save-tagged registry rule of the sequence carries the path.
pub open spec fn registry_rules_derive(
    rs: Seq<(Seq<char>, RegistryRuleV)>,
    path: Seq<char>,
) -> bool {
    exists|i: int|
        0 <= i < rs.len() && has_save_tag((#[trigger] rs[i]).1.tags) && rs[i].0 == path
}

proof fn lemma_add_registry_rules_membership(
    acc: Seq<Seq<char>>,
    rs: Seq<(Seq<char>, RegistryRuleV)>,
    p: Seq<char>,
)
    ensures
        reg_in(add_registry_rules(acc, rs), p) <==> reg_in(acc, p) || registry_rules_derive(rs, p),
    decreases rs.len(),
{
    if rs.len() == 0 {
    } else {
        let acc2 = if has_save_tag(rs[0].1.tags) && !reg_in(acc, rs[0].0) {
            acc.push(rs[0].0)
        } else {
            acc
        };
        assert(reg_in(acc2, p) <==> reg_in(acc, p) || (has_save_tag(rs[0].1.tags) && p == rs[0].0))
            by {
            if has_save_tag(rs[0].1.tags) && !reg_in(acc, rs[0].0) {
                let out = acc.push(rs[0].0);
                if reg_in(out, p) {
                    let i = choose|i: int| 0 <= i < out.len() && #[trigger] out[i] == p;
                    if i < acc.len() {
                        assert(acc[i] == out[i]);
                    }
                }
                if reg_in(acc, p) {
                    let i = choose|i: int| 0 <= i < acc.len() && #[trigger] acc[i] == p;
                    assert(out[i] == acc[i]);
                }
                if p == rs[0].0 {
                    assert(out[acc.len() as int] == rs[0].0);
                }
            }
        }
        lemma_add_registry_rules_membership(acc2, rs.drop_first(), p);
        if registry_rules_derive(rs, p) {
            let i = choose|i: int|
                0 <= i < rs.len() && has_save_tag((#[trigger] rs[i]).1.tags) && rs[i].0 == p;
            if i > 0 {
                assert(rs.drop_first()[i - 1] == rs[i]);
                assert(registry_rules_derive(rs.drop_first(), p));
            }
        }
        if registry_rules_derive(rs.drop_first(), p) {
            let i = choose|i: int|
                0 <= i < rs.drop_first().len() && has_save_tag(
                    (#[trigger] rs.drop_first()[i]).1.tags,
                ) && rs.drop_first()[i].0 == p;
            assert(rs.drop_first()[i] == rs[i + 1]);
            assert(registry_rules_derive(rs, p));
        }
    }
}

/// What the registry extraction emits, exactly: a path stands in a game
/// entry's registry paths precisely when some save-tagged registry rule
/// carries it.
pub proof fn lemma_registry_paths_membership(g: GameV, path: Seq<char>)
    ensures
        reg_in(registry_paths_of_game(g), path) <==> registry_rules_derive(g.registry, path),
{
    lemma_add_registry_rules_membership(Seq::empty(), g.registry, path);
}

proof fn lemma_add_file_constraints_push(
    acc: Seq<PathPairV>,
    path: Seq<char>,
    cs: Seq<FileConstraint>,
    c: FileConstraint,
)
    ensures
        add_file_constraints(acc, path, cs.push(c)) == (match map_os(c.os) {
            Some(os) => dedup_push(add_file_constraints(acc, path, cs), path, os),
            None => add_file_constraints(acc, path, cs),
        }),
    decreases cs.len(),
{
    if cs.len() == 0 {
        assert(cs.push(c).drop_first() =~= Seq::<FileConstraint>::empty());
        assert(cs.push(c)[0] == c);
        let a1 = match map_os(c.os) {
            Some(os) => dedup_push(acc, path, os),
            None => acc,
        };
        assert(add_file_constraints(a1, path, Seq::<FileConstraint>::empty()) == a1);
    } else {
        assert(cs.push(c).drop_first() =~= cs.drop_first().push(c));
        let acc2 = match map_os(cs[0].os) {
            Some(os) => dedup_push(acc, path, os),
            None => acc,
        };
        lemma_add_file_constraints_push(acc2, path, cs.drop_first(), c);
    }
}

proof fn lemma_add_file_rules_push(
    acc: Seq<PathPairV>,
    files: Seq<(Seq<char>, FileRuleV)>,
    f: (Seq<char>, FileRuleV),
)
    ensures
        add_file_rules(acc, files.push(f)) == (if has_save_tag(f.1.tags) {
            add_file_constraints(add_file_rules(acc, files), f.0, f.1.when)
        } else {
            add_file_rules(acc, files)
        }),
    decreases files.len(),
{
    if files.len() == 0 {
        assert(files.push(f).drop_first() =~= Seq::<(Seq<char>, FileRuleV)>::empty());
        assert(files.push(f)[0] == f);
        let a1 = if has_save_tag(f.1.tags) {
            add_file_constraints(acc, f.0, f.1.when)
        } else {
            acc
        };
        assert(add_file_rules(a1, Seq::<(Seq<char>, FileRuleV)>::empty()) == a1);
    } else {
        assert(files.push(f).drop_first() =~= files.drop_first().push(f));
        let acc2 = if has_save_tag(files[0].1.tags) {
            add_file_constraints(acc, files[0].0, files[0].1.when)
        } else {
            acc
        };
        lemma_add_file_rules_push(acc2, files.drop_first(), f);
    }
}

proof fn lemma_add_launch_constraints_push(
    acc: Seq<PathPairV>,
    path: Seq<char>,
    cs: Seq<LaunchConstraint>,
    c: LaunchConstraint,
)
    ensures
        add_launch_constraints(acc, path, cs.push(c)) == (match map_os(c.os) {
            Some(os) => dedup_push(add_launch_constraints(acc, path, cs), path, os),
            None => add_launch_constraints(acc, path, cs),
        }),
    decreases cs.len(),
{
    if cs.len() == 0 {
        assert(cs.push(c).drop_first() =~= Seq::<LaunchConstraint>::empty());
        assert(cs.push(c)[0] == c);
        let a1 = match map_os(c.os) {
            Some(os) => dedup_push(acc, path, os),
            None => acc,
        };
        assert(add_launch_constraints(a1, path, Seq::<LaunchConstraint>::empty()) == a1);
    } else {
        assert(cs.push(c).drop_first() =~= cs.drop_first().push(c));
        let acc2 = match map_os(cs[0].os) {
            Some(os) => dedup_push(acc, path, os),
            None => acc,
        };
        lemma_add_launch_constraints_push(acc2, path, cs.drop_first(), c);
    }
}

proof fn lemma_add_launch_entries_push(
    acc: Seq<PathPairV>,
    path: Seq<char>,
    es: Seq<LaunchEntryV>,
    e: LaunchEntryV,
)
    ensures
        add_launch_entries(acc, path, es.push(e)) == add_launch_constraints(
            add_launch_entries(acc, path, es),
            path,
            e.when,
        ),
    decreases es.len(),
{
    if es.len() == 0 {
        assert(es.push(e).drop_first() =~= Seq::<LaunchEntryV>::empty());
        assert(es.push(e)[0] == e);
        let a1 = add_launch_constraints(acc, path, e.when);
        assert(add_launch_entries(a1, path, Seq::<LaunchEntryV>::empty()) == a1);
    } else {
        assert(es.push(e).drop_first() =~= es.drop_first().push(e));
        lemma_add_launch_entries_push(
            add_launch_constraints(acc, path, es[0].when),
            path,
            es.drop_first(),
            e,
        );
    }
}

proof fn lemma_add_launch_rules_push(
    acc: Seq<PathPairV>,
    ls: Seq<(Seq<char>, Seq<LaunchEntryV>)>,
    l: (Seq<char>, Seq<LaunchEntryV>),
)
    ensures
        add_launch_rules(acc, ls.push(l)) == add_launch_entries(
            add_launch_rules(acc, ls),
            l.0,
            l.1,
        ),
    decreases ls.len(),
{
    if ls.len() == 0 {
        assert(ls.push(l).drop_first() =~= Seq::<(Seq<char>, Seq<LaunchEntryV>)>::empty());
        assert(ls.push(l)[0] == l);
        let a1 = add_launch_entries(acc, l.0, l.1);
        assert(add_launch_rules(a1, Seq::<(Seq<char>, Seq<LaunchEntryV>)>::empty()) == a1);
    } else {
        assert(ls.push(l).drop_first() =~= ls.drop_first().push(l));
        lemma_add_launch_rules_push(add_launch_entries(acc, ls[0].0, ls[0].1), ls.drop_first(), l);
    }
}

proof fn lemma_add_registry_rules_push(
    acc: Seq<Seq<char>>,
    rs: Seq<(Seq<char>, RegistryRuleV)>,
    e: (Seq<char>, RegistryRuleV),
)
    ensures
        add_registry_rules(acc, rs.push(e)) == (if has_save_tag(e.1.tags) && !reg_in(
            add_registry_rules(acc, rs),
            e.0,
        ) {
            add_registry_rules(acc, rs).push(e.0)
        } else {
            add_registry_rules(acc, rs)
        }),
    decreases rs.len(),
{
    if rs.len() == 0 {
        assert(rs.push(e).drop_first() =~= Seq::<(Seq<char>, RegistryRuleV)>::empty());
        assert(rs.push(e)[0] == e);
        let a1 = if has_save_tag(e.1.tags) && !reg_in(acc, e.0) {
            acc.push(e.0)
        } else {
            acc
        };
        assert(add_registry_rules(a1, Seq::<(Seq<char>, RegistryRuleV)>::empty()) == a1);
    } else {
        assert(rs.push(e).drop_first() =~= rs.drop_first().push(e));
        let acc2 = if has_save_tag(rs[0].1.tags) && !reg_in(acc, rs[0].0) {
            acc.push(rs[0].0)
        } else {
            acc
        };
        lemma_add_registry_rules_push(acc2, rs.drop_first(), e);
    }
}

fn tags_have_save(tags: &Option<Vec<Tag>>) -> (r: bool)
    ensures
        r == has_save_tag(crate::manifest::opt_tags_view(*tags)),
{
    match tags {
        None => false,
        Some(v) => {
            let mut k: usize = 0;
            while k < v.len()
                invariant
                    0 <= k <= v.len(),
                    crate::manifest::opt_tags_view(*tags) == v@,
                    forall|m: int| 0 <= m < k ==> v@[m] != Tag::Save,
                decreases v.len() - k,
            {
                if v[k] == Tag::Save {
                    assert(has_save_tag(v@)) by {
                        assert(v@[k as int] == Tag::Save);
                    }
                    return true;
                }
                k += 1;
            }
            assert(!has_save_tag(v@));
            false
        },
    }
}

fn save_pairs_contain(v: &Vec<SavePathCreate>, path: &String, os: OS) -> (r: bool)
    ensures
        r == pair_in(v.deep_view(), path@, os),
{
    let mut k: usize = 0;
    while k < v.len()
        invariant
            0 <= k <= v.len(),
            forall|m: int|
                0 <= m < k ==> !((#[trigger] v.deep_view()[m]).path == path@
                    && v.deep_view()[m].os == os),
        decreases v.len() - k,
    {
        if v[k].operating_system == os && v[k].path == *path {
            assert(v.deep_view()[k as int].path == path@ && v.deep_view()[k as int].os == os);
            return true;
        }
        k += 1;
    }
    false
}

fn exec_pairs_contain(v: &Vec<ExecutableCreate>, path: &String, os: OS) -> (r: bool)
    ensures
        r == pair_in(v.deep_view(), path@, os),
{
    let mut k: usize = 0;
    while k < v.len()
        invariant
            0 <= k <= v.len(),
            forall|m: int|
                0 <= m < k ==> !((#[trigger] v.deep_view()[m]).path == path@
                    && v.deep_view()[m].os == os),
        decreases v.len() - k,
    {
        if v[k].operating_system == os && v[k].executable == *path {
            assert(v.deep_view()[k as int].path == path@ && v.deep_view()[k as int].os == os);
            return true;
        }
        k += 1;
    }
    false
}

fn reg_paths_contain(v: &Vec<String>, path: &String) -> (r: bool)
    ensures
        r == reg_in(v.deep_view(), path@),
{
    let mut k: usize = 0;
    while k < v.len()
        invariant
            0 <= k <= v.len(),
            forall|m: int| 0 <= m < k ==> #[trigger] v.deep_view()[m] != path@,
        decreases v.len() - k,
    {
        if v[k] == *path {
            assert(v.deep_view()[k as int] == path@);
            return true;
        }
        k += 1;
    }
    false
}

/// The save paths of a game entry: each save-tagged file rule contributes
/// one (path, OS) pair per constraint clause whose OS maps to a catalog
/// value, deduplicated in rule order.
pub fn extract_save_path_from_game(game: &Game) -> (r: Vec<SavePathCreate>)
    ensures
        r.deep_view() == save_pairs_of_game(game@),
{
    let mut result: Vec<SavePathCreate> = Vec::new();
    assert(result.deep_view() =~= Seq::<PathPairV>::empty());
    let files = match &game.files {
        Some(v) => v,
        None => {
            return result;
        },
    };
    let ghost filesv = game@.files;
    assert(filesv == files.deep_view());
    let mut i: usize = 0;
    assert(filesv.take(0) =~= Seq::<(Seq<char>, FileRuleV)>::empty());
    while i < files.len()
        invariant
            0 <= i <= files.len(),
            filesv == files.deep_view(),
            result.deep_view() == add_file_rules(Seq::empty(), filesv.take(i as int)),
        decreases files.len() - i,
    {
        let (path, rule) = &files[i];
        assert(filesv[i as int] == (path@, rule@));
        let ghost acc0 = result.deep_view();
        if tags_have_save(&rule.tags) {
            let ghost whenv = rule@.when;
            match &rule.when {
                None => {
                    assert(add_file_constraints(acc0, path@, whenv) == acc0);
                },
                Some(cs) => {
                    let mut j: usize = 0;
                    assert(whenv.take(0) =~= Seq::<FileConstraint>::empty());
                    while j < cs.len()
                        invariant
                            0 <= j <= cs.len(),
                            whenv == cs@,
                            result.deep_view() == add_file_constraints(
                                acc0,
                                path@,
                                whenv.take(j as int),
                            ),
                        decreases cs.len() - j,
                    {
                        let c = cs[j];
                        match map_constraint_os(&c.os) {
                            Some(os) => {
                                if !save_pairs_contain(&result, path, os) {
                                    let ghost before = result.deep_view();
                                    result.push(
                                        SavePathCreate { path: path.clone(), operating_system: os },
                                    );
                                    assert(result.deep_view() =~= before.push(
                                        PathPairV { path: path@, os },
                                    ));
                                }
                            },
                            None => {},
                        }
                        proof {
                            assert(whenv.take(j + 1) =~= whenv.take(j as int).push(whenv[j as int]));
                            lemma_add_file_constraints_push(acc0, path@, whenv.take(j as int), c);
                        }
                        j += 1;
                    }
                    assert(whenv.take(cs.len() as int) =~= whenv);
                },
            }
        }
        proof {
            assert(filesv.take(i + 1) =~= filesv.take(i as int).push(filesv[i as int]));
            lemma_add_file_rules_push(Seq::empty(), filesv.take(i as int), filesv[i as int]);
        }
        i += 1;
    }
    assert(filesv.take(files.len() as int) =~= filesv);
    result
}

/// The executables of a game entry: each launch rule contributes one
/// (executable, OS) pair per constraint clause whose OS maps to a catalog
/// value, deduplicated in rule order.
pub fn extract_executable_path_from_game(game: &Game) -> (r: Vec<ExecutableCreate>)
    ensures
        r.deep_view() == launch_pairs_of_game(game@),
{
    let mut result: Vec<ExecutableCreate> = Vec::new();
    assert(result.deep_view() =~= Seq::<PathPairV>::empty());
    let launch = match &game.launch {
        Some(v) => v,
        None => {
            return result;
        },
    };
    let ghost launchv = game@.launch;
    assert(launchv == launch.deep_view());
    let mut i: usize = 0;
    assert(launchv.take(0) =~= Seq::<(Seq<char>, Seq<LaunchEntryV>)>::empty());
    while i < launch.len()
        invariant
            0 <= i <= launch.len(),
            launchv == launch.deep_view(),
            result.deep_view() == add_launch_rules(Seq::empty(), launchv.take(i as int)),
        decreases launch.len() - i,
    {
        let (path, entries) = &launch[i];
        assert(launchv[i as int] == (path@, entries.deep_view()));
        let ghost acc0 = result.deep_view();
        let ghost entriesv = entries.deep_view();
        let mut e: usize = 0;
        assert(entriesv.take(0) =~= Seq::<LaunchEntryV>::empty());
        while e < entries.len()
            invariant
                0 <= e <= entries.len(),
                entriesv == entries.deep_view(),
                result.deep_view() == add_launch_entries(acc0, path@, entriesv.take(e as int)),
        decreases entries.len() - e,
        {
            let entry = &entries[e];
            assert(entriesv[e as int] == entry@);
            let ghost acc1 = result.deep_view();
            let ghost whenv = entry@.when;
            match &entry.when {
                None => {
                    assert(add_launch_constraints(acc1, path@, whenv) == acc1);
                },
                Some(cs) => {
                    let mut j: usize = 0;
                    assert(whenv.take(0) =~= Seq::<LaunchConstraint>::empty());
                    while j < cs.len()
                        invariant
                            0 <= j <= cs.len(),
                            whenv == cs@,
                            result.deep_view() == add_launch_constraints(
                                acc1,
                                path@,
                                whenv.take(j as int),
                            ),
                        decreases cs.len() - j,
                    {
                        let c = cs[j];
                        match map_constraint_os(&c.os) {
                            Some(os) => {
                                if !exec_pairs_contain(&result, path, os) {
                                    let ghost before = result.deep_view();
                                    result.push(
                                        ExecutableCreate {
                                            executable: path.clone(),
                                            operating_system: os,
                                        },
                                    );
                                    assert(result.deep_view() =~= before.push(
                                        PathPairV { path: path@, os },
                                    ));
                                }
                            },
                            None => {},
                        }
                        proof {
                            assert(whenv.take(j + 1) =~= whenv.take(j as int).push(whenv[j as int]));
                            lemma_add_launch_constraints_push(acc1, path@, whenv.take(j as int), c);
                        }
                        j += 1;
                    }
                    assert(whenv.take(cs.len() as int) =~= whenv);
                },
            }
            proof {
                assert(entriesv.take(e + 1) =~= entriesv.take(e as int).push(entriesv[e as int]));
                lemma_add_launch_entries_push(acc0, path@, entriesv.take(e as int), entriesv[e as int]);
            }
            e += 1;
        }
        assert(entriesv.take(entries.len() as int) =~= entriesv);
        proof {
            assert(launchv.take(i + 1) =~= launchv.take(i as int).push(launchv[i as int]));
            lemma_add_launch_rules_push(Seq::empty(), launchv.take(i as int), launchv[i as int]);
        }
        i += 1;
    }
    assert(launchv.take(launch.len() as int) =~= launchv);
    result
}

/// The registry paths of a game entry: each save-tagged registry rule
/// contributes its bare path, deduplicated in rule order.
pub fn extract_registry_path_from_game(game: &Game) -> (r: Vec<String>)
    ensures
        r.deep_view() == registry_paths_of_game(game@),
{
    let mut result: Vec<String> = Vec::new();
    assert(result.deep_view() =~= Seq::<Seq<char>>::empty());
    let registry = match &game.registry {
        Some(v) => v,
        None => {
            return result;
        },
    };
    let ghost regv = game@.registry;
    assert(regv == registry.deep_view());
    let mut i: usize = 0;
    assert(regv.take(0) =~= Seq::<(Seq<char>, RegistryRuleV)>::empty());
    while i < registry.len()
        invariant
            0 <= i <= registry.len(),
            regv == registry.deep_view(),
            result.deep_view() == add_registry_rules(Seq::empty(), regv.take(i as int)),
        decreases registry.len() - i,
    {
        let (path, rule) = &registry[i];
        assert(regv[i as int] == (path@, rule@));
        if tags_have_save(&rule.tags) && !reg_paths_contain(&result, path) {
            let ghost before = result.deep_view();
            result.push(path.clone());
            assert(result.deep_view() =~= before.push(path@));
        }
        proof {
            assert(regv.take(i + 1) =~= regv.take(i as int).push(regv[i as int]));
            lemma_add_registry_rules_push(Seq::empty(), regv.take(i as int), regv[i as int]);
        }
        i += 1;
    }
    assert(regv.take(registry.len() as int) =~= regv);
    result
}

/// The decimal digit character of a value below ten.
pub open spec fn digit_char(d: nat) -> char {
    if d == 0 {
        '0'
    } else if d == 1 {
        '1'
    } else if d == 2 {
        '2'
    } else if d == 3 {
        '3'
    } else if d == 4 {
        '4'
    } else if d == 5 {
        '5'
    } else if d == 6 {
        '6'
    } else if d == 7 {
        '7'
    } else if d == 8 {
        '8'
    } else {
        '9'
    }
}

/// The decimal digits of a natural number, most significant first.
pub open spec fn dec_digits(n: nat) -> Seq<char>
    decreases n,
{
    if n < 10 {
        seq![digit_char(n)]
    } else {
        dec_digits(n / 10).push(digit_char(n % 10))
    }
}

/// The decimal representation of an integer, with a leading minus sign
/// when negative.
pub open spec fn dec_str_i64(n: int) -> Seq<char> {
    if n < 0 {
        seq!['-'] + dec_digits((-n) as nat)
    } else {
        dec_digits(n as nat)
    }
}

fn digit_str(d: u64) -> (r: &'static str)
    requires
        d < 10,
    ensures
        r@ =~= seq![digit_char(d as nat)],
{
    proof {
        reveal_strlit("0");
        reveal_strlit("1");
        reveal_strlit("2");
        reveal_strlit("3");
        reveal_strlit("4");
        reveal_strlit("5");
        reveal_strlit("6");
        reveal_strlit("7");
        reveal_strlit("8");
        reveal_strlit("9");
    }
    match d {
        0 => "0",
        1 => "1",
        2 => "2",
        3 => "3",
        4 => "4",
        5 => "5",
        6 => "6",
        7 => "7",
        8 => "8",
        _ => "9",
    }
}

fn append_dec_digits(n: u64, out: &mut String)
    ensures
        final(out)@ == old(out)@ + dec_digits(n as nat),
    decreases n,
{
    if n >= 10 {
        append_dec_digits(n / 10, out);
        out.append(digit_str(n % 10));
        assert(out@ =~= old(out)@ + dec_digits(n as nat));
    } else {
        out.append(digit_str(n));
        assert(out@ =~= old(out)@ + dec_digits(n as nat));
    }
}

/// The decimal representation of a 64-bit integer.
pub fn i64_to_string(n: i64) -> (r: String)
    ensures
        r@ == dec_str_i64(n as int),
{
    let mut out = String::new();
    if n < 0 {
        proof {
            reveal_strlit("-");
        }
        out.append("-");
        assert(out@ =~= seq!['-']);
        let abs: u64 = ((-(n + 1)) as u64) + 1;
        assert(abs as nat == (-(n as int)) as nat);
        append_dec_digits(abs, &mut out);
        assert(out@ =~= seq!['-'] + dec_digits((-(n as int)) as nat));
    } else {
        append_dec_digits(n as u64, &mut out);
        assert(out@ =~= dec_digits(n as nat));
    }
    out
}

/// The optional Steam application id of a game entry, in decimal.
pub open spec fn steam_appid_of(g: GameV) -> Option<Seq<char>> {
    match g.steam_id {
        Some(id) => Some(dec_str_i64(id as int)),
        None => None,
    }
}

/// The typed facts of one feed entry: its metadata (canonical name, Steam
/// id in decimal, no synonyms yet — synonyms come from the alias map during
/// reconciliation), its executables and its save paths.
pub fn extract_datatype_endpoint_from_game_index(name: &String, game: &Game) -> (r: (
    GameMetadataCreate,
    Vec<ExecutableCreate>,
    Vec<SavePathCreate>,
))
    ensures
        r.0@.default_name == name@,
        r.0@.known_name == Seq::<Seq<char>>::empty(),
        r.0@.steam_appid == steam_appid_of(game@),
        r.1.deep_view() == launch_pairs_of_game(game@),
        r.2.deep_view() == save_pairs_of_game(game@),
{
    let steam_appid = match &game.steam {
        Some(s) => match s.id {
            Some(id) => Some(i64_to_string(id)),
            None => None,
        },
        None => None,
    };
    let metadata = GameMetadataCreate {
        default_name: name.clone(),
        known_name: Vec::new(),
        steam_appid,
    };
    assert(metadata@.known_name =~= Seq::<Seq<char>>::empty());
    (metadata, extract_executable_path_from_game(game), extract_save_path_from_game(game))
}

} // verus!
