//! The configuration of a run: the directories to scan and the global rules,
//! built from the typed values of the configuration document.

use vstd::prelude::*;
use crate::color::{default_color, hex_color, parse_hex_color};
use crate::engine::regex_accepts;
use crate::error::{Rule, RunError};
use crate::pattern::{case_insensitive, compile_case_insensitive, is_rejection, Pattern};
use crate::text::{
    joined, lemma_lex_le_antisymmetric, lemma_lex_le_total, lemma_lex_le_transitive, lex_lt, str_le,
};

verus! {

/// One `[dirs.<id>]` section of the configuration document, as decoded.
#[derive(Debug)]
pub struct ParsedDir {
    /// The key of the section.
    pub id: String,
    /// `path`: where the directory lies, relative to the search root.
    pub path: String,
    /// `prefix`: the label shown with each match.
    pub prefix: String,
    /// `match_dirs`, where the section has it.
    pub match_dirs: Option<bool>,
    /// `color`, where the section has it.
    pub color: Option<String>,
}

/// The configuration document, as decoded.
#[derive(Debug)]
pub struct ParsedConfig {
    /// The `[dirs.<id>]` sections, in any order.
    pub dirs: Vec<ParsedDir>,
    /// `output_fmt`, where the document has it.
    pub output_fmt: Option<String>,
    /// `clean`, where the document has it.
    pub clean: Option<String>,
    /// `ignore`, where the document has it.
    pub ignore: Option<String>,
}

/// One directory to scan.
#[derive(Debug, PartialEq, Eq)]
pub struct Dir {
    /// The key of the directory's section; no two directories share one.
    pub id: String,
    /// Where the directory lies, relative to the search root.
    pub path: String,
    /// The label shown with each match, before it is colored.
    pub raw_prefix: String,
    /// Whether the sub-directories are the candidates, in place of the files.
    pub match_dirs: bool,
    /// The color of the label: red, green, blue.
    pub color: [u8; 3],
}

/// The model of a `Dir`.
pub struct DirModel {
    pub id: Seq<char>,
    pub path: Seq<char>,
    pub raw_prefix: Seq<char>,
    pub match_dirs: bool,
    pub color: Seq<u8>,
}

impl View for Dir {
    type V = DirModel;

    open spec fn view(&self) -> DirModel {
        DirModel {
            id: self.id@,
            path: self.path@,
            raw_prefix: self.raw_prefix@,
            match_dirs: self.match_dirs,
            color: self.color@,
        }
    }
}

impl DeepView for Dir {
    type V = DirModel;

    open spec fn deep_view(&self) -> DirModel {
        self@
    }
}

/// The template of an output line, where the document gives none: the prefix of
/// the directory, a colon and the name that matched.
pub fn default_fmt() -> (out: String)
    ensures
        out@ == "%p: %f"@,
{
    "%p: %f".to_owned()
}

/// The template of an output line, where the document gives none: the same as
/// `default_fmt`.
pub fn default_output_fmt() -> (out: String)
    ensures
        out@ == "%p: %f"@,
{
    default_fmt()
}

/// The directories come in strictly ascending order of their ids: sorted, and
/// no id twice.
pub open spec fn ascending_ids(dirs: Seq<DirModel>) -> bool {
    forall|i: int, j: int|
        0 <= i < j < dirs.len() ==> lex_lt(#[trigger] dirs[i].id, #[trigger] dirs[j].id)
}

/// Some directory of `dirs` has the id `id`.
pub open spec fn has_id(dirs: Seq<DirModel>, id: Seq<char>) -> bool {
    exists|i: int| 0 <= i < dirs.len() && #[trigger] dirs[i].id == id
}

/// Puts `dir` at its place among `dirs`, unless its id is taken.
///
/// Returns whether `dir` went in.
fn insert_dir(dirs: &mut Vec<Dir>, dir: Dir) -> (inserted: bool)
    requires
        ascending_ids(old(dirs).deep_view()),
    ensures
        ascending_ids(final(dirs).deep_view()),
        inserted == !has_id(old(dirs).deep_view(), dir@.id),
        inserted ==> forall|id: Seq<char>|
            has_id(final(dirs).deep_view(), id) <==> has_id(old(dirs).deep_view(), id) || id
                == dir@.id,
        inserted ==> final(dirs).deep_view().to_multiset()
            == old(dirs).deep_view().to_multiset().insert(dir@),
        !inserted ==> final(dirs).deep_view() == old(dirs).deep_view(),
{
    let ghost before = dirs.deep_view();
    let mut at: usize = 0;
    while at < dirs.len() && !str_le(dir.id.as_str(), dirs[at].id.as_str())
        invariant
            at <= dirs.len(),
            dirs.deep_view() == before,
            forall|i: int| 0 <= i < at ==> lex_lt(#[trigger] before[i].id, dir@.id),
        decreases dirs.len() - at,
    {
        proof {
            lemma_lex_le_total(dir@.id, before[at as int].id);
        }
        at += 1;
    }
    if at < dirs.len() && dirs[at].id == dir.id {
        assert(before[at as int].id == dir@.id);
        return false;
    }
    proof {
        assert forall|i: int| 0 <= i < before.len() implies #[trigger] before[i].id != dir@.id by {
            if i > at {
                lemma_lex_le_transitive(dir@.id, before[at as int].id, before[i].id);
                if before[i].id == dir@.id {
                    lemma_lex_le_antisymmetric(before[at as int].id, dir@.id);
                }
            }
        }
    }
    let ghost model = dir@;
    dirs.insert(at, dir);
    proof {
        assert(dirs.deep_view() =~= before.insert(at as int, model));
        vstd::seq_lib::to_multiset_insert(before, at as int, model);
        let after = dirs.deep_view();
        assert forall|i: int, j: int| 0 <= i < j < after.len() implies lex_lt(
            #[trigger] after[i].id,
            #[trigger] after[j].id,
        ) by {
            if j == at {
            } else if i == at {
                let k = j - 1;
                assert(after[j] == before[k]);
                if k > at {
                    lemma_lex_le_transitive(
                        model.id,
                        before[at as int].id,
                        before[k].id,
                    );
                }
            } else {
                let ki = if i < at { i } else { i - 1 };
                let kj = if j < at { j } else { j - 1 };
                assert(after[i] == before[ki]);
                assert(after[j] == before[kj]);
            }
        }
        assert forall|id: Seq<char>| has_id(after, id) <==> has_id(before, id) || id
            == model.id by {
            if has_id(after, id) {
                let i = choose|i: int| 0 <= i < after.len() && #[trigger] after[i].id == id;
                if i != at {
                    let k = if i < at { i } else { i - 1 };
                    assert(before[k].id == id);
                }
            }
            if has_id(before, id) {
                let k = choose|k: int| 0 <= k < before.len() && #[trigger] before[k].id == id;
                let i = if k < at { k } else { k + 1 };
                assert(after[i].id == id);
            }
            if id == model.id {
                assert(after[at as int].id == id);
            }
        }
    }
    true
}

/// The color of a decoded section: its `color` read as hex digits, or white
/// where it has none. `None` where the digits are malformed.
pub open spec fn section_color(section: ParsedDir) -> Option<Seq<u8>> {
    match section.color {
        Some(text) => hex_color(text@),
        None => Some(seq![255u8, 255u8, 255u8]),
    }
}

/// The directory that a decoded section stands for.
pub open spec fn section_dir(section: ParsedDir) -> DirModel
    recommends
        section_color(section) is Some,
{
    DirModel {
        id: section.id@,
        path: section.path@,
        raw_prefix: section.prefix@,
        match_dirs: match section.match_dirs {
            Some(flag) => flag,
            None => false,
        },
        color: section_color(section).unwrap(),
    }
}

/// The directories that the decoded sections stand for, in the order of the
/// sections.
pub open spec fn section_dirs(sections: Seq<ParsedDir>) -> Seq<DirModel> {
    Seq::new(sections.len(), |i: int| section_dir(sections[i]))
}

/// What makes a decoded document unusable.
pub enum Defect {
    /// The section at this index has a malformed color.
    Color(int),
    /// The section at this index repeats the id of an earlier section.
    DuplicateId(int),
    /// The clean pattern does not compile.
    Clean,
    /// The ignore pattern does not compile.
    Ignore,
}

/// What is wrong with the section at `i`, given the sections before it.
pub open spec fn section_defect(sections: Seq<ParsedDir>, i: int) -> Option<Defect> {
    if section_color(sections[i]) is None {
        Some(Defect::Color(i))
    } else if exists|j: int| 0 <= j < i && #[trigger] sections[j].id@ == sections[i].id@ {
        Some(Defect::DuplicateId(i))
    } else {
        None
    }
}

/// The defect of the first defective section among the first `n`.
pub open spec fn first_section_defect(sections: Seq<ParsedDir>, n: int) -> Option<Defect>
    decreases n,
{
    if n <= 0 {
        None
    } else {
        match first_section_defect(sections, n - 1) {
            Some(defect) => Some(defect),
            None => section_defect(sections, n - 1),
        }
    }
}

/// The source of a global rule: the text of the document, made
/// case-insensitive.
pub open spec fn rule_source(text: Option<String>) -> Option<Seq<char>> {
    match text {
        Some(text) => Some(case_insensitive(text@)),
        None => None,
    }
}

/// The first defect of a decoded document: the sections in their order, then
/// the clean pattern, then the ignore pattern.
pub open spec fn first_defect(parsed: ParsedConfig) -> Option<Defect> {
    match first_section_defect(parsed.dirs@, parsed.dirs@.len() as int) {
        Some(defect) => Some(defect),
        None => {
            if rule_source(parsed.clean) is Some && !regex_accepts(
                rule_source(parsed.clean).unwrap(),
            ) {
                Some(Defect::Clean)
            } else if rule_source(parsed.ignore) is Some && !regex_accepts(
                rule_source(parsed.ignore).unwrap(),
            ) {
                Some(Defect::Ignore)
            } else {
                None
            }
        },
    }
}

/// The directories and the global rules of a run.
#[derive(Debug)]
pub struct Config {
    /// The directories, in ascending order of their ids.
    pub dirs: Vec<Dir>,
    /// The template of an output line.
    pub output_fmt: String,
    /// The pattern whose matches are removed from a candidate name.
    pub clean: Option<Pattern>,
    /// The pattern that rules a candidate name out.
    pub ignore: Option<Pattern>,
}

/// The model of a `Config`.
pub struct ConfigModel {
    pub dirs: Seq<DirModel>,
    pub output_fmt: Seq<char>,
    pub clean: Option<Seq<char>>,
    pub ignore: Option<Seq<char>>,
}

/// The source of a rule, if there is one.
pub open spec fn rule_model(rule: Option<Pattern>) -> Option<Seq<char>> {
    match rule {
        Some(pattern) => Some(pattern@),
        None => None,
    }
}

impl View for Config {
    type V = ConfigModel;

    open spec fn view(&self) -> ConfigModel {
        ConfigModel {
            dirs: self.dirs.deep_view(),
            output_fmt: self.output_fmt@,
            clean: rule_model(self.clean),
            ignore: rule_model(self.ignore),
        }
    }
}

/// `dirs` enumerates the directories of `sections`: the same directories, in
/// ascending order of their ids.
pub open spec fn enumerates(dirs: Seq<DirModel>, sections: Seq<DirModel>) -> bool {
    &&& ascending_ids(dirs)
    &&& dirs.to_multiset() == sections.to_multiset()
}

/// The template of an output line: that of the document, or `%p: %f` where the
/// document has none.
pub open spec fn template_of(text: Option<String>) -> Seq<char> {
    match text {
        Some(text) => text@,
        None => "%p: %f"@,
    }
}

/// `config` is the configuration that the decoded document stands for.
pub open spec fn is_config_of(config: ConfigModel, parsed: ParsedConfig) -> bool {
    &&& enumerates(config.dirs, section_dirs(parsed.dirs@))
    &&& config.output_fmt == template_of(parsed.output_fmt)
    &&& config.clean == rule_source(parsed.clean)
    &&& config.ignore == rule_source(parsed.ignore)
}

/// `error` is the error for `defect` of the decoded document: a `ColorFormat`
/// error with the text of the color, a `ConfigParse` error that names the
/// repeated id, or a `RegexCompile` error for the rule, in the words of the
/// engine.
pub open spec fn reports(error: RunError, defect: Defect, parsed: ParsedConfig) -> bool {
    match defect {
        Defect::Color(i) => error is ColorFormat && error->value@
            == parsed.dirs@[i].color.unwrap()@,
        Defect::DuplicateId(i) => error is ConfigParse && error->ConfigParse_detail@
            == "duplicate directory id: "@ + parsed.dirs@[i].id@,
        Defect::Clean => is_rejection(error, Rule::Clean, rule_source(parsed.clean).unwrap()),
        Defect::Ignore => is_rejection(error, Rule::Ignore, rule_source(parsed.ignore).unwrap()),
    }
}

/// Compiles a global rule of the document, case-insensitively.
fn compile_rule(rule: Rule, text: &Option<String>) -> (r: Result<Option<Pattern>, RunError>)
    ensures
        rule_source(*text) is Some && !regex_accepts(rule_source(*text).unwrap()) ==> r is Err
            && is_rejection(r->Err_0, rule, rule_source(*text).unwrap()),
        !(rule_source(*text) is Some && !regex_accepts(rule_source(*text).unwrap())) ==> r is Ok
            && rule_model(r->Ok_0) == rule_source(*text),
{
    match text {
        None => Ok(None),
        Some(source) => {
            match compile_case_insensitive(rule, source.as_str()) {
                Ok(pattern) => Ok(Some(pattern)),
                Err(error) => Err(error),
            }
        },
    }
}

/// Builds the directory that a decoded section stands for.
fn dir_of_section(section: &ParsedDir) -> (r: Result<Dir, RunError>)
    ensures
        match section_color(*section) {
            Some(_) => r is Ok && r->Ok_0@ == section_dir(*section),
            None => r is Err && r->Err_0 is ColorFormat && r->Err_0->value@
                == section.color.unwrap()@,
        },
{
    let color = match &section.color {
        Some(text) => {
            match parse_hex_color(text.as_str()) {
                Ok(color) => color,
                Err(error) => {
                    return Err(error);
                },
            }
        },
        None => default_color(),
    };
    let match_dirs = match section.match_dirs {
        Some(flag) => flag,
        None => false,
    };
    Ok(
        Dir {
            id: section.id.clone(),
            path: section.path.clone(),
            raw_prefix: section.prefix.clone(),
            match_dirs,
            color,
        },
    )
}

/// Builds the configuration of a run from the decoded document.
///
/// The directories come out in ascending order of their ids, whatever the
/// order of the sections. A section without `match_dirs` scans files, one
/// without `color` is white, and a document without `output_fmt` prints
/// `%p: %f`. The clean and ignore patterns are compiled case-insensitively.
///
/// The first defect of the document decides the error: a malformed color is a
/// `ColorFormat` error with the text of the color, a repeated id a
/// `ConfigParse` error, and a pattern that does not compile a `RegexCompile`
/// error for its rule.
pub fn from_toml_path(parsed: &ParsedConfig) -> (r: Result<Config, RunError>)
    ensures
        match first_defect(*parsed) {
            None => r is Ok && is_config_of(r->Ok_0@, *parsed),
            Some(defect) => r is Err && reports(r->Err_0, defect, *parsed),
        },
{
    let ghost sections = parsed.dirs@;
    let mut dirs: Vec<Dir> = Vec::new();
    let mut i: usize = 0;
    assert(dirs.deep_view() =~= section_dirs(sections.take(0)));
    while i < parsed.dirs.len()
        invariant
            i <= parsed.dirs.len(),
            sections == parsed.dirs@,
            first_section_defect(sections, i as int) is None,
            ascending_ids(dirs.deep_view()),
            dirs.deep_view().to_multiset() == section_dirs(sections.take(i as int)).to_multiset(),
            forall|id: Seq<char>|
                has_id(dirs.deep_view(), id) <==> exists|j: int|
                    0 <= j < i && #[trigger] sections[j].id@ == id,
        decreases parsed.dirs.len() - i,
    {
        let section = &parsed.dirs[i];
        let dir = match dir_of_section(section) {
            Ok(dir) => dir,
            Err(error) => {
                proof {
                    lemma_first_section_defect_stays(sections, i as int + 1, sections.len() as int);
                }
                return Err(error);
            },
        };
        let ghost before = dirs.deep_view();
        let ghost model = dir@;
        if !insert_dir(&mut dirs, dir) {
            proof {
                lemma_first_section_defect_stays(sections, i as int + 1, sections.len() as int);
            }
            return Err(
                RunError::ConfigParse {
                    detail: joined("duplicate directory id: ", section.id.as_str()),
                },
            );
        }
        proof {
            let taken = sections.take(i as int);
            let next = sections.take(i as int + 1);
            assert(section_dirs(next) =~= section_dirs(taken).push(model));
            vstd::seq_lib::to_multiset_build(section_dirs(taken), model);
            assert forall|id: Seq<char>| has_id(dirs.deep_view(), id) <==> exists|j: int|
                0 <= j < i + 1 && #[trigger] sections[j].id@ == id by {
                if id == model.id {
                    assert(sections[i as int].id@ == id);
                }
            }
        }
        i += 1;
    }
    assert(sections.take(i as int) == sections);
    let output_fmt = match &parsed.output_fmt {
        Some(text) => text.clone(),
        None => default_output_fmt(),
    };
    let clean = match compile_rule(Rule::Clean, &parsed.clean) {
        Ok(rule) => rule,
        Err(error) => {
            return Err(error);
        },
    };
    let ignore = match compile_rule(Rule::Ignore, &parsed.ignore) {
        Ok(rule) => rule,
        Err(error) => {
            return Err(error);
        },
    };
    Ok(Config { dirs, output_fmt, clean, ignore })
}

/// Once a section is defective, looking at more sections finds the same defect.
proof fn lemma_first_section_defect_stays(sections: Seq<ParsedDir>, n: int, m: int)
    requires
        0 <= n <= m,
        first_section_defect(sections, n) is Some,
    ensures
        first_section_defect(sections, m) == first_section_defect(sections, n),
    decreases m - n,
{
    if n < m {
        lemma_first_section_defect_stays(sections, n, m - 1);
    }
}

/// Directories in ascending order stay so without the last of them.
pub proof fn lemma_ascending_drop_last(dirs: Seq<DirModel>)
    requires
        ascending_ids(dirs),
        dirs.len() > 0,
    ensures
        ascending_ids(dirs.drop_last()),
{
    let rest = dirs.drop_last();
    assert forall|a: int, b: int| 0 <= a < b < rest.len() implies lex_lt(
        #[trigger] rest[a].id,
        #[trigger] rest[b].id,
    ) by {
        assert(rest[a] == dirs[a] && rest[b] == dirs[b]);
    }
}

/// Directories in ascending order stay so without the first of them.
pub proof fn lemma_ascending_drop_first(dirs: Seq<DirModel>)
    requires
        ascending_ids(dirs),
        dirs.len() > 0,
    ensures
        ascending_ids(dirs.drop_first()),
{
    let rest = dirs.drop_first();
    assert forall|a: int, b: int| 0 <= a < b < rest.len() implies lex_lt(
        #[trigger] rest[a].id,
        #[trigger] rest[b].id,
    ) by {
        assert(rest[a] == dirs[a + 1] && rest[b] == dirs[b + 1]);
    }
}

/// Directories in ascending order of their ids are told by what they hold: two
/// such sequences with the same directories are the same sequence.
pub proof fn lemma_ascending_ids_unique(x: Seq<DirModel>, y: Seq<DirModel>)
    requires
        ascending_ids(x),
        ascending_ids(y),
        x.to_multiset() == y.to_multiset(),
    ensures
        x == y,
    decreases x.len(),
{
    vstd::seq_lib::to_multiset_len(x);
    vstd::seq_lib::to_multiset_len(y);
    if x.len() == 0 {
        assert(x =~= y);
    } else {
        assert(x.contains(x[0]));
        assert(y.contains(y[0]));
        vstd::seq_lib::to_multiset_contains(x, x[0]);
        vstd::seq_lib::to_multiset_contains(y, x[0]);
        vstd::seq_lib::to_multiset_contains(x, y[0]);
        vstd::seq_lib::to_multiset_contains(y, y[0]);
        let j = choose|j: int| 0 <= j < y.len() && y[j] == x[0];
        let i = choose|i: int| 0 <= i < x.len() && x[i] == y[0];
        if j > 0 {
            assert(lex_lt(y[0].id, y[j].id));
            if i > 0 {
                assert(lex_lt(x[0].id, x[i].id));
                lemma_lex_le_antisymmetric(x[0].id, y[0].id);
            }
        }
        assert(x[0] == y[0]);
        vstd::seq_lib::to_multiset_remove(x, 0);
        vstd::seq_lib::to_multiset_remove(y, 0);
        assert(x.remove(0) =~= x.drop_first());
        assert(y.remove(0) =~= y.drop_first());
        lemma_ascending_drop_first(x);
        lemma_ascending_drop_first(y);
        lemma_ascending_ids_unique(x.drop_first(), y.drop_first());
        assert(x =~= seq![x[0]] + x.drop_first());
        assert(y =~= seq![y[0]] + y.drop_first());
    }
}

/// The order in which the directories are enumerated does not depend on the
/// order in which the document declares them: two documents that declare the
/// same directories, in whatever order, give the same enumeration.
pub proof fn lemma_enumeration_ignores_declaration_order(
    first: Seq<DirModel>,
    second: Seq<DirModel>,
    first_dirs: Seq<DirModel>,
    second_dirs: Seq<DirModel>,
)
    requires
        first.to_multiset() == second.to_multiset(),
        enumerates(first_dirs, first),
        enumerates(second_dirs, second),
    ensures
        first_dirs == second_dirs,
{
    lemma_ascending_ids_unique(first_dirs, second_dirs);
}

} // verus!
