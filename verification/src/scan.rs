//! The scan of one directory: from the entries that a listing gave to the
//! names to report.

use vstd::prelude::*;
use crate::app::{App, AppModel};
use crate::config::{Dir, DirModel};
use crate::engine::{regex_is_match, regex_replace_all};
use crate::text::{chars_of, string_of_range, trim, trimmed};

verus! {

/// What a directory entry is.
#[derive(Clone, Copy, Debug, PartialEq, Eq, Structural)]
pub enum EntryKind {
    /// A regular file.
    File,
    /// A directory.
    Directory,
    /// Anything else.
    Other,
}

/// One entry of a directory listing.
#[derive(Debug)]
pub struct Entry {
    /// The name of the entry within its directory.
    pub name: String,
    /// What the entry is.
    pub kind: EntryKind,
}

/// The model of an `Entry`.
pub struct EntryModel {
    pub name: Seq<char>,
    pub kind: EntryKind,
}

impl View for Entry {
    type V = EntryModel;

    open spec fn view(&self) -> EntryModel {
        EntryModel { name: self.name@, kind: self.kind }
    }
}

impl DeepView for Entry {
    type V = EntryModel;

    open spec fn deep_view(&self) -> EntryModel {
        self@
    }
}

/// The index of the last `.` of `name`, if it has one.
pub open spec fn last_dot(name: Seq<char>) -> Option<int>
    decreases name.len(),
{
    if name.len() == 0 {
        None
    } else if name.last() == '.' {
        Some(name.len() - 1)
    } else {
        last_dot(name.drop_last())
    }
}

/// A file name without its final extension: what stands before the last `.`.
///
/// A name without a `.`, a name whose only `.` comes first, and the name `..`
/// have no extension and are their own stem.
pub open spec fn file_stem(name: Seq<char>) -> Seq<char> {
    if name == seq!['.', '.'] {
        name
    } else {
        match last_dot(name) {
            Some(dot) => if dot > 0 {
                name.take(dot)
            } else {
                name
            },
            None => name,
        }
    }
}

/// The stem of the file name `name`.
pub fn stem_of(name: &str) -> (out: String)
    ensures
        out@ == file_stem(name@),
{
    let v = chars_of(name);
    let n = v.len();
    if n == 2 && v[0] == '.' && v[1] == '.' {
        assert(name@ == seq!['.', '.']);
        return name.to_owned();
    }
    assert(name@ != seq!['.', '.']) by {
        if name@ == seq!['.', '.'] {
            assert(seq!['.', '.'].len() == 2);
            assert(seq!['.', '.'][0] == '.' && seq!['.', '.'][1] == '.');
        }
    }
    let mut end: usize = n;
    assert(v@.take(n as int) == v@);
    while end > 0 && v[end - 1] != '.'
        invariant
            end <= n == v.len(),
            last_dot(v@) == last_dot(v@.take(end as int)),
        decreases end,
    {
        assert(v@.take(end as int).drop_last() == v@.take(end - 1));
        end -= 1;
    }
    if end > 1 {
        assert(last_dot(v@) == Some(end - 1));
        let out = string_of_range(&v, 0, end - 1);
        assert(v@.subrange(0, end - 1) == v@.take(end - 1));
        out
    } else {
        name.to_owned()
    }
}

/// The name under which an entry of `dir` is a candidate: a sub-directory by
/// its full name where `dir` matches directories, a file by its stem where it
/// does not. Entries of any other kind are no candidates.
pub open spec fn candidate_name(dir: DirModel, entry: EntryModel) -> Option<Seq<char>> {
    if dir.match_dirs {
        if entry.kind == EntryKind::Directory {
            Some(entry.name)
        } else {
            None
        }
    } else {
        if entry.kind == EntryKind::File {
            Some(file_stem(entry.name))
        } else {
            None
        }
    }
}

/// Whether the ignore pattern rules the candidate `name` out.
pub open spec fn ignored(app: AppModel, name: Seq<char>) -> bool {
    !app.no_ignore && app.config.ignore is Some && regex_is_match(
        app.config.ignore.unwrap(),
        name,
    )
}

/// The candidate `name` after cleaning: without the matches of the clean
/// pattern.
pub open spec fn cleaned(app: AppModel, name: Seq<char>) -> Seq<char> {
    if !app.no_clean && app.config.clean is Some {
        regex_replace_all(app.config.clean.unwrap(), name, Seq::empty())
    } else {
        name
    }
}

/// The name that the scan of `dir` reports for `entry`, if it reports one: the
/// candidate name, unless it is ignored, cleaned and trimmed, if the query
/// matches it.
pub open spec fn reported_name(app: AppModel, dir: DirModel, entry: EntryModel) -> Option<
    Seq<char>,
> {
    match candidate_name(dir, entry) {
        None => None,
        Some(name) => {
            let shown = trimmed(cleaned(app, name));
            if !ignored(app, name) && app.query.accepts(shown) {
                Some(shown)
            } else {
                None
            }
        },
    }
}

/// The names that the scan of `dir` reports for `entries`, in the order of the
/// entries.
pub open spec fn scan(app: AppModel, dir: DirModel, entries: Seq<EntryModel>) -> Seq<Seq<char>> {
    entries.filter_map(|entry: EntryModel| reported_name(app, dir, entry))
}

/// The name that the scan of `dir` reports for `entry`, if it reports one.
pub fn report_entry(app: &App, dir: &Dir, entry: &Entry) -> (r: Option<String>)
    ensures
        match reported_name(app@, dir@, entry@) {
            Some(name) => r is Some && r->Some_0@ == name,
            None => r is None,
        },
{
    let name = if dir.match_dirs {
        match entry.kind {
            EntryKind::Directory => entry.name.clone(),
            _ => {
                return None;
            },
        }
    } else {
        match entry.kind {
            EntryKind::File => stem_of(entry.name.as_str()),
            _ => {
                return None;
            },
        }
    };
    if !app.no_ignore {
        match &app.config.ignore {
            Some(pattern) => {
                if pattern.is_match(name.as_str()) {
                    return None;
                }
            },
            None => {},
        }
    }
    let clean = if app.no_clean {
        name
    } else {
        match &app.config.clean {
            Some(pattern) => pattern.remove_matches(name.as_str()),
            None => name,
        }
    };
    let shown = trim(clean.as_str());
    if app.query.matches(shown.as_str()) {
        Some(shown)
    } else {
        None
    }
}

/// Scans one directory: the names to report for the entries of its listing, in
/// the order of the listing.
///
/// Only one kind of entry is looked at: sub-directories where `dir` matches
/// directories, files where it does not. A file goes by its stem. A name that
/// the ignore pattern matches is dropped; the matches of the clean pattern are
/// removed from the others, which are then trimmed and reported if the query
/// matches them.
pub fn query_dir(app: &App, dir: &Dir, entries: &Vec<Entry>) -> (matches: Vec<String>)
    ensures
        matches.deep_view() == scan(app@, dir@, entries.deep_view()),
{
    let mut matches: Vec<String> = Vec::new();
    let ghost listing = entries.deep_view();
    let ghost report = |entry: EntryModel| reported_name(app@, dir@, entry);
    let mut i: usize = 0;
    assert(matches.deep_view() =~= listing.take(0).filter_map(report));
    while i < entries.len()
        invariant
            i <= entries.len(),
            listing == entries.deep_view(),
            report == (|entry: EntryModel| reported_name(app@, dir@, entry)),
            matches.deep_view() == listing.take(i as int).filter_map(report),
        decreases entries.len() - i,
    {
        let ghost before = matches.deep_view();
        proof {
            listing.lemma_filter_map_take_succ(report, i as int);
        }
        match report_entry(app, dir, &entries[i]) {
            Some(name) => {
                let ghost shown = name@;
                matches.push(name);
                assert(matches.deep_view() =~= before + seq![shown]);
            },
            None => {
                assert(before + Seq::<Seq<char>>::empty() =~= before);
            },
        }
        i += 1;
    }
    assert(listing.take(i as int) == listing);
    matches
}

/// What a scan reports for two listings, one after the other, is what it
/// reports for the first followed by what it reports for the second.
pub proof fn lemma_scan_concat(
    app: AppModel,
    dir: DirModel,
    first: Seq<EntryModel>,
    second: Seq<EntryModel>,
)
    ensures
        scan(app, dir, first + second) == scan(app, dir, first) + scan(app, dir, second),
    decreases second.len(),
{
    if second.len() == 0 {
        assert(first + second =~= first);
        assert(scan(app, dir, first) + scan(app, dir, second) =~= scan(app, dir, first));
    } else {
        assert((first + second).drop_last() =~= first + second.drop_last());
        assert((first + second).last() == second.last());
        lemma_scan_concat(app, dir, first, second.drop_last());
        let rest = scan(app, dir, first) + scan(app, dir, second.drop_last());
        match reported_name(app, dir, second.last()) {
            Some(name) => {
                assert(rest + seq![name] =~= scan(app, dir, first) + (scan(
                    app,
                    dir,
                    second.drop_last(),
                ) + seq![name]));
            },
            None => {},
        }
    }
}

/// A scan reports the same names, each as often, for two listings that hold
/// the same entries in another order.
pub proof fn lemma_scan_permutation(
    app: AppModel,
    dir: DirModel,
    first: Seq<EntryModel>,
    second: Seq<EntryModel>,
)
    requires
        first.to_multiset() == second.to_multiset(),
    ensures
        scan(app, dir, first).to_multiset() == scan(app, dir, second).to_multiset(),
    decreases first.len(),
{
    broadcast use vstd::multiset::group_multiset_axioms;

    vstd::seq_lib::to_multiset_len(first);
    vstd::seq_lib::to_multiset_len(second);
    if first.len() == 0 {
        assert(first =~= second);
    } else {
        let entry = first.last();
        let rest = first.drop_last();
        assert(first.contains(entry));
        vstd::seq_lib::to_multiset_contains(first, entry);
        vstd::seq_lib::to_multiset_contains(second, entry);
        let at = choose|at: int| 0 <= at < second.len() && second[at] == entry;
        let head = second.take(at);
        let tail = second.skip(at + 1);
        let others = second.remove(at);
        assert(others =~= head + tail);
        assert(second =~= head + seq![entry] + tail);
        assert(first =~= rest.push(entry));
        vstd::seq_lib::to_multiset_build(rest, entry);
        vstd::seq_lib::to_multiset_remove(second, at);
        assert(rest.to_multiset() =~= first.to_multiset().remove(entry));
        assert(rest.to_multiset() =~= others.to_multiset());
        lemma_scan_permutation(app, dir, rest, others);

        let shown = scan(app, dir, seq![entry]);
        lemma_scan_concat(app, dir, rest, seq![entry]);
        assert(rest + seq![entry] =~= first);
        lemma_scan_concat(app, dir, head, tail);
        lemma_scan_concat(app, dir, head, seq![entry]);
        lemma_scan_concat(app, dir, head + seq![entry], tail);
        vstd::seq_lib::lemma_multiset_commutative(scan(app, dir, rest), shown);
        vstd::seq_lib::lemma_multiset_commutative(scan(app, dir, head), scan(app, dir, tail));
        vstd::seq_lib::lemma_multiset_commutative(scan(app, dir, head), shown);
        vstd::seq_lib::lemma_multiset_commutative(
            scan(app, dir, head) + shown,
            scan(app, dir, tail),
        );
        assert(scan(app, dir, second).to_multiset() =~= scan(app, dir, head).to_multiset().add(
            shown.to_multiset(),
        ).add(scan(app, dir, tail).to_multiset()));
        assert(scan(app, dir, first).to_multiset() =~= scan(app, dir, second).to_multiset());
    }
}

} // verus!
