//! The directories that exist: a configured directory whose path does not
//! exist is left out of the run, with a warning.

use vstd::prelude::*;
use crate::config::{ascending_ids, has_id, lemma_ascending_drop_last, Dir, DirModel};
use crate::select::{selected, SelectionModel};
use crate::text::{joined, lex_lt};

verus! {

/// Whether the directory at `i` was found to exist. A directory of which
/// `present` says nothing was not.
pub open spec fn is_present(present: Seq<bool>, i: int) -> bool {
    0 <= i < present.len() && present[i]
}

/// The directories of `dirs` that were found to exist, in their order.
pub open spec fn existing(dirs: Seq<DirModel>, present: Seq<bool>) -> Seq<DirModel>
    decreases dirs.len(),
{
    if dirs.len() == 0 {
        Seq::empty()
    } else {
        let rest = existing(dirs.drop_last(), present);
        if is_present(present, dirs.len() - 1) {
            rest.push(dirs.last())
        } else {
            rest
        }
    }
}

/// The directories of `dirs` that were not found to exist, in their order.
pub open spec fn missing(dirs: Seq<DirModel>, present: Seq<bool>) -> Seq<DirModel>
    decreases dirs.len(),
{
    if dirs.len() == 0 {
        Seq::empty()
    } else {
        let rest = missing(dirs.drop_last(), present);
        if is_present(present, dirs.len() - 1) {
            rest
        } else {
            rest.push(dirs.last())
        }
    }
}

/// The warning for a directory that does not exist: it names the id and the
/// path of the directory.
pub open spec fn missing_warning(dir: DirModel) -> Seq<char> {
    "skipping directory `"@ + dir.id + "`: path `"@ + dir.path + "` does not exist"@
}

/// One warning for each directory that was not found to exist, in the order of
/// the directories.
pub open spec fn missing_warnings(dirs: Seq<DirModel>, present: Seq<bool>) -> Seq<Seq<char>> {
    missing(dirs, present).map_values(|dir: DirModel| missing_warning(dir))
}

/// The warning for a directory holds the id and the path of the directory.
pub proof fn lemma_warning_names_id_and_path(dir: DirModel)
    ensures
        exists|at: int|
            0 <= at && at + dir.id.len() <= missing_warning(dir).len()
                && #[trigger] missing_warning(dir).subrange(at, at + dir.id.len()) == dir.id,
        exists|at: int|
            0 <= at && at + dir.path.len() <= missing_warning(dir).len()
                && #[trigger] missing_warning(dir).subrange(at, at + dir.path.len()) == dir.path,
{
    let warning = missing_warning(dir);
    let id_at = "skipping directory `"@.len() as int;
    let path_at = id_at + dir.id.len() + "`: path `"@.len();
    assert(warning.subrange(id_at, id_at + dir.id.len()) =~= dir.id);
    assert(warning.subrange(path_at, path_at + dir.path.len()) =~= dir.path);
}

/// The warning for `dir`, which does not exist.
pub fn warn_missing(dir: &Dir) -> (out: String)
    ensures
        out@ == missing_warning(dir@),
{
    let mut out = joined("skipping directory `", dir.id.as_str());
    out.append("`: path `");
    out.append(dir.path.as_str());
    out.append("` does not exist");
    out
}

/// Drops the directories that do not exist, with a warning for each.
///
/// `present[i]` says whether the path of `dirs[i]` exists under the search
/// root. Returns the directories that exist, and the warnings for the others.
pub fn retain_existing(dirs: Vec<Dir>, present: &Vec<bool>) -> (r: (Vec<Dir>, Vec<String>))
    ensures
        r.0.deep_view() == existing(dirs.deep_view(), present@),
        r.1.deep_view() == missing_warnings(dirs.deep_view(), present@),
{
    let ghost all = dirs.deep_view();
    let mut kept: Vec<Dir> = Vec::new();
    let mut warnings: Vec<String> = Vec::new();
    let mut i: usize = 0;
    let total = dirs.len();
    proof {
        assert(kept.deep_view() =~= existing(all.take(0), present@));
        assert(warnings.deep_view() =~= missing_warnings(all.take(0), present@));
    }
    for dir in it: dirs
        invariant
            i == it.index(),
            it.seq().len() == all.len() == total,
            forall|j: int| 0 <= j < all.len() ==> (#[trigger] it.seq()[j])@ == all[j],
            kept.deep_view() == existing(all.take(i as int), present@),
            warnings.deep_view() == missing_warnings(all.take(i as int), present@),
    {
        let ghost kept_before = kept.deep_view();
        let ghost warnings_before = warnings.deep_view();
        proof {
            assert(all.take(i + 1).drop_last() == all.take(i as int));
            assert(all.take(i + 1).last() == all[i as int]);
        }
        if i < present.len() && present[i] {
            kept.push(dir);
            assert(kept.deep_view() =~= kept_before.push(all[i as int]));
        } else {
            warnings.push(warn_missing(&dir));
            proof {
                let gone = missing(all.take(i as int), present@);
                assert(warnings.deep_view() =~= warnings_before.push(
                    missing_warning(all[i as int]),
                ));
                assert(gone.push(all[i as int]).map_values(|dir: DirModel| missing_warning(dir))
                    =~= warnings_before.push(missing_warning(all[i as int])));
            }
        }
        i += 1;
    }
    assert(all.take(all.len() as int) == all);
    (kept, warnings)
}

/// Every directory that exists is one of `dirs`, found to exist.
pub proof fn lemma_existing_members(dirs: Seq<DirModel>, present: Seq<bool>, k: int)
    requires
        0 <= k < existing(dirs, present).len(),
    ensures
        exists|i: int|
            0 <= i < dirs.len() && is_present(present, i) && #[trigger] dirs[i] == existing(
                dirs,
                present,
            )[k],
    decreases dirs.len(),
{
    let last = dirs.len() - 1;
    let rest = existing(dirs.drop_last(), present);
    if is_present(present, last) && k == rest.len() {
        assert(dirs[last] == existing(dirs, present)[k]);
    } else {
        lemma_existing_members(dirs.drop_last(), present, k);
        let i = choose|i: int|
            0 <= i < dirs.drop_last().len() && is_present(present, i)
                && #[trigger] dirs.drop_last()[i] == rest[k];
        assert(dirs[i] == existing(dirs, present)[k]);
    }
}

/// Every directory that is missing is one of `dirs`, not found to exist.
pub proof fn lemma_missing_members(dirs: Seq<DirModel>, present: Seq<bool>, k: int)
    requires
        0 <= k < missing(dirs, present).len(),
    ensures
        exists|i: int|
            0 <= i < dirs.len() && !is_present(present, i) && #[trigger] dirs[i] == missing(
                dirs,
                present,
            )[k],
    decreases dirs.len(),
{
    let last = dirs.len() - 1;
    let rest = missing(dirs.drop_last(), present);
    if !is_present(present, last) && k == rest.len() {
        assert(dirs[last] == missing(dirs, present)[k]);
    } else {
        lemma_missing_members(dirs.drop_last(), present, k);
        let i = choose|i: int|
            0 <= i < dirs.drop_last().len() && !is_present(present, i)
                && #[trigger] dirs.drop_last()[i] == rest[k];
        assert(dirs[i] == missing(dirs, present)[k]);
    }
}

/// Dropping the directories that do not exist keeps the others in ascending
/// order of their ids.
pub proof fn lemma_existing_ascending(dirs: Seq<DirModel>, present: Seq<bool>)
    requires
        ascending_ids(dirs),
    ensures
        ascending_ids(existing(dirs, present)),
    decreases dirs.len(),
{
    if dirs.len() > 0 {
        let rest = dirs.drop_last();
        let last = dirs.len() - 1;
        lemma_ascending_drop_last(dirs);
        lemma_existing_ascending(rest, present);
        let kept = existing(dirs, present);
        let kept_rest = existing(rest, present);
        assert forall|a: int, b: int| 0 <= a < b < kept.len() implies lex_lt(
            #[trigger] kept[a].id,
            #[trigger] kept[b].id,
        ) by {
            if b == kept_rest.len() {
                lemma_existing_members(rest, present, a);
                let i = choose|i: int|
                    0 <= i < rest.len() && is_present(present, i) && #[trigger] rest[i]
                        == kept_rest[a];
                assert(rest[i] == dirs[i]);
                assert(kept[b] == dirs[last]);
            } else {
                assert(kept[a] == kept_rest[a] && kept[b] == kept_rest[b]);
            }
        }
    }
}

/// A directory that does not exist takes no part in the run, and is warned of
/// exactly once: no directory that is kept has its id, whatever the selection,
/// and it stands once among the missing directories, each of which has one
/// warning.
pub proof fn lemma_missing_directory_is_dropped_and_warned_once(
    dirs: Seq<DirModel>,
    present: Seq<bool>,
    selection: SelectionModel,
    i: int,
)
    requires
        ascending_ids(dirs),
        0 <= i < dirs.len(),
        !is_present(present, i),
    ensures
        !has_id(selected(existing(dirs, present), selection), dirs[i].id),
        missing(dirs, present).to_multiset().count(dirs[i]) == 1,
        missing_warnings(dirs, present).len() == missing(dirs, present).len(),
        forall|k: int|
            0 <= k < missing(dirs, present).len() ==> #[trigger] missing_warnings(dirs, present)[k]
                == missing_warning(missing(dirs, present)[k]),
{
    let kept = existing(dirs, present);
    let active = selected(kept, selection);
    let keeps = |dir: DirModel| selection.keeps(dir.id);
    if has_id(active, dirs[i].id) {
        let a = choose|a: int| 0 <= a < active.len() && #[trigger] active[a].id == dirs[i].id;
        assert(active.contains(active[a]));
        kept.lemma_filter_contains_rev(keeps, active[a]);
        let k = choose|k: int| 0 <= k < kept.len() && kept[k] == active[a];
        lemma_existing_members(dirs, present, k);
        let j = choose|j: int|
            0 <= j < dirs.len() && is_present(present, j) && #[trigger] dirs[j] == kept[k];
        lemma_same_id_same_index(dirs, i, j);
    }
    lemma_missing_count(dirs, present, i);
}

/// In ascending order of ids, two directories with one id are one directory.
pub proof fn lemma_same_id_same_index(dirs: Seq<DirModel>, i: int, j: int)
    requires
        ascending_ids(dirs),
        0 <= i < dirs.len(),
        0 <= j < dirs.len(),
        dirs[i].id == dirs[j].id,
    ensures
        i == j,
{
    if i < j {
        assert(lex_lt(dirs[i].id, dirs[j].id));
    } else if j < i {
        assert(lex_lt(dirs[j].id, dirs[i].id));
    }
}

/// A directory that does not exist stands exactly once among the missing ones.
proof fn lemma_missing_count(dirs: Seq<DirModel>, present: Seq<bool>, i: int)
    requires
        ascending_ids(dirs),
        0 <= i < dirs.len(),
        !is_present(present, i),
    ensures
        missing(dirs, present).to_multiset().count(dirs[i]) == 1,
    decreases dirs.len(),
{
    let rest = dirs.drop_last();
    let last = dirs.len() - 1;
    let gone_rest = missing(rest, present);
    lemma_ascending_drop_last(dirs);
    if i == last {
        if gone_rest.contains(dirs[last]) {
            let k = choose|k: int| 0 <= k < gone_rest.len() && gone_rest[k] == dirs[last];
            lemma_missing_members(rest, present, k);
            let j = choose|j: int|
                0 <= j < rest.len() && !is_present(present, j) && #[trigger] rest[j]
                    == gone_rest[k];
            assert(rest[j] == dirs[j]);
            lemma_same_id_same_index(dirs, j, last);
        }
        vstd::seq_lib::to_multiset_contains(gone_rest, dirs[last]);
        vstd::seq_lib::to_multiset_build(gone_rest, dirs[last]);
    } else {
        assert(rest[i] == dirs[i]);
        lemma_missing_count(rest, present, i);
        if !is_present(present, last) {
            vstd::seq_lib::to_multiset_build(gone_rest, dirs[last]);
            if dirs[last] == dirs[i] {
                lemma_same_id_same_index(dirs, i, last);
            }
        }
    }
}

} // verus!
