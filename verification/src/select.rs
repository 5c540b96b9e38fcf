//! The directories that the user asked for, or ruled out, by their ids.

use vstd::prelude::*;
use crate::config::{ascending_ids, lemma_ascending_drop_last, Dir, DirModel};
use crate::text::{chars_of, lex_lt, str_eq, string_of_range};

verus! {

/// The ids that narrow a run down. A run has a list of ids to keep or a list of
/// ids to drop, never both.
#[derive(Debug)]
pub enum Selection {
    /// Every directory takes part.
    Everything,
    /// Only the directories with these ids take part.
    Only(Vec<String>),
    /// The directories with these ids do not take part.
    Exclude(Vec<String>),
}

/// The model of a `Selection`.
pub enum SelectionModel {
    Everything,
    Only(Seq<Seq<char>>),
    Exclude(Seq<Seq<char>>),
}

impl View for Selection {
    type V = SelectionModel;

    open spec fn view(&self) -> SelectionModel {
        match self {
            Selection::Everything => SelectionModel::Everything,
            Selection::Only(ids) => SelectionModel::Only(ids.deep_view()),
            Selection::Exclude(ids) => SelectionModel::Exclude(ids.deep_view()),
        }
    }
}

impl SelectionModel {
    /// Whether the directory with the id `id` takes part.
    pub open spec fn keeps(self, id: Seq<char>) -> bool {
        match self {
            SelectionModel::Everything => true,
            SelectionModel::Only(ids) => ids.contains(id),
            SelectionModel::Exclude(ids) => !ids.contains(id),
        }
    }
}

/// The directories of `dirs` that `selection` keeps, in their order.
pub open spec fn selected(dirs: Seq<DirModel>, selection: SelectionModel) -> Seq<DirModel> {
    dirs.filter(|dir: DirModel| selection.keeps(dir.id))
}

/// Whether `id` is one of `ids`.
pub fn contains_id(ids: &Vec<String>, id: &str) -> (found: bool)
    ensures
        found == ids.deep_view().contains(id@),
{
    let mut i: usize = 0;
    while i < ids.len()
        invariant
            i <= ids.len(),
            forall|j: int| 0 <= j < i ==> #[trigger] ids.deep_view()[j] != id@,
        decreases ids.len() - i,
    {
        if str_eq(ids[i].as_str(), id) {
            assert(ids.deep_view()[i as int] == id@);
            return true;
        }
        i += 1;
    }
    false
}

impl Selection {
    /// Whether the directory with the id `id` takes part.
    pub fn keeps(&self, id: &str) -> (kept: bool)
        ensures
            kept == self@.keeps(id@),
    {
        match self {
            Selection::Everything => true,
            Selection::Only(ids) => contains_id(ids, id),
            Selection::Exclude(ids) => !contains_id(ids, id),
        }
    }
}

/// Narrows `dirs` down to the directories that `selection` keeps.
pub fn select(dirs: Vec<Dir>, selection: &Selection) -> (kept: Vec<Dir>)
    ensures
        kept.deep_view() == selected(dirs.deep_view(), selection@),
{
    let ghost all = dirs.deep_view();
    let ghost keeps = |dir: DirModel| selection@.keeps(dir.id);
    let mut kept: Vec<Dir> = Vec::new();
    proof {
        reveal(Seq::filter);
        assert(all.take(0).filter(keeps) =~= kept.deep_view());
    }
    for dir in it: dirs
        invariant
            keeps == (|dir: DirModel| selection@.keeps(dir.id)),
            it.seq().len() == all.len(),
            forall|j: int| 0 <= j < all.len() ==> (#[trigger] it.seq()[j])@ == all[j],
            kept.deep_view() == all.take(it.index() as int).filter(keeps),
    {
        let ghost before = kept.deep_view();
        let ghost i = it.index() as int;
        proof {
            assert(all.take(i + 1) =~= all.take(i).push(all[i]));
            all.take(i).lemma_filter_push(all[i], keeps);
        }
        if selection.keeps(dir.id.as_str()) {
            kept.push(dir);
            assert(kept.deep_view() =~= before.push(all[i]));
        }
    }
    assert(all.take(all.len() as int) == all);
    kept
}

// ---------------------------------------------------------------------------
// Lists of ids
// ---------------------------------------------------------------------------

/// The parts of `text` between its commas, in order. A text without a comma is
/// one part; two commas in a row, or a comma at either end, give an empty part.
pub open spec fn split_commas(text: Seq<char>) -> Seq<Seq<char>>
    decreases text.len(),
{
    if text.len() == 0 {
        seq![Seq::empty()]
    } else {
        let parts = split_commas(text.drop_last());
        if text.last() == ',' {
            parts.push(Seq::empty())
        } else {
            parts.update(parts.len() - 1, parts.last().push(text.last()))
        }
    }
}

/// A split has at least one part.
pub proof fn lemma_split_commas_nonempty(text: Seq<char>)
    ensures
        split_commas(text).len() >= 1,
    decreases text.len(),
{
    if text.len() > 0 {
        lemma_split_commas_nonempty(text.drop_last());
    }
}

/// The ids of a comma-separated list.
pub fn split_ids(list: &str) -> (ids: Vec<String>)
    ensures
        ids.deep_view() == split_commas(list@),
{
    let v = chars_of(list);
    let mut ids: Vec<String> = Vec::new();
    let mut start: usize = 0;
    let mut i: usize = 0;
    assert(v@.take(0).len() == 0);
    assert(ids.deep_view() =~= split_commas(v@.take(0)).drop_last());
    assert(v@.subrange(0, 0) =~= split_commas(v@.take(0)).last());
    while i < v.len()
        invariant
            start <= i <= v.len(),
            split_commas(v@.take(i as int)).len() >= 1,
            ids.deep_view() == split_commas(v@.take(i as int)).drop_last(),
            v@.subrange(start as int, i as int) == split_commas(v@.take(i as int)).last(),
        decreases v.len() - i,
    {
        let ghost parts = split_commas(v@.take(i as int));
        let ghost before = ids.deep_view();
        proof {
            assert(v@.take(i + 1).drop_last() == v@.take(i as int));
            lemma_split_commas_nonempty(v@.take(i + 1));
        }
        if v[i] == ',' {
            let part = string_of_range(&v, start, i);
            ids.push(part);
            start = i + 1;
            proof {
                assert(ids.deep_view() =~= before.push(parts.last()));
                assert(before.push(parts.last()) =~= parts);
                assert(parts.push(Seq::empty()).drop_last() =~= parts);
                assert(v@.subrange(start as int, i + 1) =~= Seq::<char>::empty());
            }
        } else {
            proof {
                let next = parts.update(parts.len() - 1, parts.last().push(v@[i as int]));
                assert(next.drop_last() =~= parts.drop_last());
                assert(v@.subrange(start as int, i + 1) =~= v@.subrange(
                    start as int,
                    i as int,
                ).push(v@[i as int]));
            }
        }
        i += 1;
    }
    assert(v@.take(i as int) == v@);
    let ghost parts = split_commas(v@);
    let ghost before = ids.deep_view();
    let part = string_of_range(&v, start, i);
    ids.push(part);
    assert(ids.deep_view() =~= before.push(parts.last()));
    assert(before.push(parts.last()) =~= parts);
    ids
}

/// The selection that `only` and `exclude` stand for, if they stand for one.
pub open spec fn selection_of(only: Option<Seq<char>>, exclude: Option<Seq<char>>) -> Option<
    SelectionModel,
> {
    match (only, exclude) {
        (Some(_), Some(_)) => None,
        (Some(list), None) => Some(SelectionModel::Only(split_commas(list))),
        (None, Some(list)) => Some(SelectionModel::Exclude(split_commas(list))),
        (None, None) => Some(SelectionModel::Everything),
    }
}

/// The text of an optional argument.
pub open spec fn argument_text(argument: Option<&str>) -> Option<Seq<char>> {
    match argument {
        Some(text) => Some(text@),
        None => None,
    }
}

impl Selection {
    /// Reads the selection off the two lists of comma-separated ids that the
    /// user may give: the ids to keep, or the ids to drop.
    ///
    /// The two exclude each other: with both there is no selection, and the
    /// result is `None`.
    pub fn from_args(only: Option<&str>, exclude: Option<&str>) -> (r: Option<Selection>)
        ensures
            match selection_of(argument_text(only), argument_text(exclude)) {
                Some(selection) => r is Some && r->Some_0@ == selection,
                None => r is None,
            },
    {
        match only {
            Some(list) => {
                match exclude {
                    Some(_) => None,
                    None => Some(Selection::Only(split_ids(list))),
                }
            },
            None => {
                match exclude {
                    Some(list) => Some(Selection::Exclude(split_ids(list))),
                    None => Some(Selection::Everything),
                }
            },
        }
    }
}

/// Keeping the ids of a list is dropping the ids of its complement: if, among
/// the ids of `dirs`, `others` holds exactly those that `chosen` does not hold,
/// then `Only(chosen)` and `Exclude(others)` keep the same directories.
pub proof fn lemma_only_is_exclude_of_complement(
    dirs: Seq<DirModel>,
    chosen: Seq<Seq<char>>,
    others: Seq<Seq<char>>,
)
    requires
        forall|i: int|
            0 <= i < dirs.len() ==> (others.contains(#[trigger] dirs[i].id) <==> !chosen.contains(
                dirs[i].id,
            )),
    ensures
        selected(dirs, SelectionModel::Only(chosen)) == selected(
            dirs,
            SelectionModel::Exclude(others),
        ),
    decreases dirs.len(),
{
    let only = |dir: DirModel| SelectionModel::Only(chosen).keeps(dir.id);
    let exclude = |dir: DirModel| SelectionModel::Exclude(others).keeps(dir.id);
    reveal(Seq::filter);
    if dirs.len() > 0 {
        let rest = dirs.drop_last();
        assert forall|i: int| 0 <= i < rest.len() implies (others.contains(#[trigger] rest[i].id)
            <==> !chosen.contains(rest[i].id)) by {
            assert(rest[i] == dirs[i]);
        }
        lemma_only_is_exclude_of_complement(rest, chosen, others);
        assert(dirs.last() == dirs[dirs.len() - 1]);
        assert(only(dirs.last()) == exclude(dirs.last()));
    }
}

/// Narrowing directories down keeps them in ascending order of their ids.
pub proof fn lemma_selected_ascending(dirs: Seq<DirModel>, selection: SelectionModel)
    requires
        ascending_ids(dirs),
    ensures
        ascending_ids(selected(dirs, selection)),
    decreases dirs.len(),
{
    let keeps = |dir: DirModel| selection.keeps(dir.id);
    reveal(Seq::filter);
    if dirs.len() > 0 {
        let rest = dirs.drop_last();
        let last = dirs.len() - 1;
        lemma_ascending_drop_last(dirs);
        lemma_selected_ascending(rest, selection);
        let kept = dirs.filter(keeps);
        let kept_rest = rest.filter(keeps);
        assert forall|a: int, b: int| 0 <= a < b < kept.len() implies lex_lt(
            #[trigger] kept[a].id,
            #[trigger] kept[b].id,
        ) by {
            if b == kept_rest.len() {
                assert(kept_rest.contains(kept_rest[a]));
                rest.lemma_filter_contains_rev(keeps, kept_rest[a]);
                let i = choose|i: int| 0 <= i < rest.len() && rest[i] == kept_rest[a];
                assert(rest[i] == dirs[i]);
                assert(kept[b] == dirs[last]);
            } else {
                assert(kept[a] == kept_rest[a] && kept[b] == kept_rest[b]);
            }
        }
    }
}

} // verus!
