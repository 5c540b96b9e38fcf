//! What a run prints: one line per match, or one count per directory, and the
//! line that sums up.

use vstd::prelude::*;
use colored::Colorize;
use crate::app::{App, AppModel};
use crate::config::Dir;
use crate::text::{chars_of, decimal, decimal_string, joined};

verus! {

/// `Colorize::truecolor` and the display of its result: `text` as the terminal
/// is to show it in the color (`red`, `green`, `blue`).
///
/// Whether the crate colors at all depends on the environment of the process,
/// so nothing is claimed of the result.
#[verifier::external_body]
fn paint(text: &str, red: u8, green: u8, blue: u8) -> (out: String) {
    text.truecolor(red, green, blue).to_string()
}

// ---------------------------------------------------------------------------
// One line
// ---------------------------------------------------------------------------

/// The line that `template` gives for a match: `%p` stands for the prefix of
/// the directory, `%f` for the name that matched, and `%` with any other
/// character behind it for nothing. Everything else stands for itself.
pub open spec fn render_template(template: Seq<char>, prefix: Seq<char>, name: Seq<char>) -> Seq<
    char,
>
    decreases template.len(),
{
    if template.len() == 0 {
        Seq::empty()
    } else if template[0] == '%' && template.len() >= 2 {
        let rest = render_template(template.skip(2), prefix, name);
        if template[1] == 'p' {
            prefix + rest
        } else if template[1] == 'f' {
            name + rest
        } else {
            rest
        }
    } else {
        seq![template[0]] + render_template(template.drop_first(), prefix, name)
    }
}

/// The line of a directory in a report of counts.
pub open spec fn count_text(prefix: Seq<char>, count: nat) -> Seq<char> {
    prefix + ":"@ + decimal(count)
}

/// The line that sums up: how many matches were found.
pub open spec fn summary_text(total: nat) -> Seq<char> {
    if total == 1 {
        decimal(total) + " match found."@
    } else {
        decimal(total) + " matches found."@
    }
}

/// Renders the line of one match.
pub fn render_line(template: &str, prefix: &str, name: &str) -> (out: String)
    ensures
        out@ == render_template(template@, prefix@, name@),
{
    let t = chars_of(template);
    let n = t.len();
    let mut out = String::new();
    let mut i: usize = 0;
    assert(t@.skip(0) == t@);
    assert(out@ + render_template(t@, prefix@, name@) =~= render_template(t@, prefix@, name@));
    while i < n
        invariant
            i <= n == t.len(),
            out@ + render_template(t@.skip(i as int), prefix@, name@) == render_template(
                t@,
                prefix@,
                name@,
            ),
        decreases n - i,
    {
        let ghost before = out@;
        let ghost here = t@.skip(i as int);
        if t[i] == '%' && n - i >= 2 {
            let ghost rest = render_template(here.skip(2), prefix@, name@);
            assert(here.skip(2) == t@.skip(i + 2));
            if t[i + 1] == 'p' {
                out.append(prefix);
                assert(out@ + rest =~= before + (prefix@ + rest));
            } else if t[i + 1] == 'f' {
                out.append(name);
                assert(out@ + rest =~= before + (name@ + rest));
            }
            i += 2;
        } else {
            let ghost rest = render_template(here.drop_first(), prefix@, name@);
            assert(here.drop_first() == t@.skip(i + 1));
            out.push(t[i]);
            assert(out@ + rest =~= before + (seq![here[0]] + rest));
            i += 1;
        }
    }
    assert(out@ + Seq::<char>::empty() =~= out@);
    out
}

/// Renders the line of a directory in a report of counts: its prefix, a colon,
/// and the number of its matches.
pub fn count_line(prefix: &str, count: usize) -> (out: String)
    ensures
        out@ == count_text(prefix@, count as nat),
{
    let mut out = joined(prefix, ":");
    let number = decimal_string(count as u128);
    out.append(number.as_str());
    out
}

/// Renders the line that sums up: `1 match found.`, and for any other total
/// `<total> matches found.`
pub fn summary_line(total: u128) -> (out: String)
    ensures
        out@ == summary_text(total as nat),
{
    let mut out = decimal_string(total);
    if total == 1 {
        out.append(" match found.");
    } else {
        out.append(" matches found.");
    }
    out
}

// ---------------------------------------------------------------------------
// The report
// ---------------------------------------------------------------------------

/// The names found in the directory at `i`: none where `lists` says nothing.
pub open spec fn list_at(lists: Seq<Seq<Seq<char>>>, i: int) -> Seq<Seq<char>> {
    if 0 <= i < lists.len() {
        lists[i]
    } else {
        Seq::empty()
    }
}

/// The prefix shown for the directory at `i`: empty where `prefixes` says
/// nothing.
pub open spec fn prefix_at(prefixes: Seq<Seq<char>>, i: int) -> Seq<char> {
    if 0 <= i < prefixes.len() {
        prefixes[i]
    } else {
        Seq::empty()
    }
}

/// The lines of one directory: its count, or one line for each of its names,
/// in their order.
pub open spec fn directory_lines(app: AppModel, names: Seq<Seq<char>>, prefix: Seq<char>) -> Seq<
    Seq<char>,
> {
    if app.counts_only {
        seq![count_text(prefix, names.len())]
    } else {
        names.map_values(|name: Seq<char>| render_template(app.config.output_fmt, prefix, name))
    }
}

/// The lines of the first `n` directories, in the order of the directories.
pub open spec fn body_lines(
    app: AppModel,
    lists: Seq<Seq<Seq<char>>>,
    prefixes: Seq<Seq<char>>,
    n: int,
) -> Seq<Seq<char>>
    decreases n,
{
    if n <= 0 {
        Seq::empty()
    } else {
        body_lines(app, lists, prefixes, n - 1) + directory_lines(
            app,
            list_at(lists, n - 1),
            prefix_at(prefixes, n - 1),
        )
    }
}

/// How many names were found in the first `n` directories together.
pub open spec fn match_count(lists: Seq<Seq<Seq<char>>>, n: int) -> nat
    decreases n,
{
    if n <= 0 {
        0
    } else {
        match_count(lists, n - 1) + list_at(lists, n - 1).len()
    }
}

/// Whether the report ends with the line that sums up.
pub open spec fn has_summary(app: AppModel) -> bool {
    !app.counts_only && !app.no_count_output
}

/// The report of a run, line by line: the lines of the directories in their
/// order, then the line that sums up, unless the run reports counts or leaves
/// it out.
///
/// `lists[i]` holds the names found in the directory at `i`, and `prefixes[i]`
/// the prefix to show for it.
pub open spec fn report_lines(
    app: AppModel,
    lists: Seq<Seq<Seq<char>>>,
    prefixes: Seq<Seq<char>>,
) -> Seq<Seq<char>> {
    let body = body_lines(app, lists, prefixes, app.config.dirs.len() as int);
    if has_summary(app) {
        body.push(summary_text(match_count(lists, app.config.dirs.len() as int)))
    } else {
        body
    }
}

/// `lines` is the report of a run for some prefixes, one for each directory.
///
/// The prefixes as the terminal shows them are made outside this crate and
/// are not known beforehand.
pub open spec fn is_report(
    lines: Seq<Seq<char>>,
    app: AppModel,
    lists: Seq<Seq<Seq<char>>>,
) -> bool {
    exists|prefixes: Seq<Seq<char>>|
        prefixes.len() == app.config.dirs.len() && lines == #[trigger] report_lines(
            app,
            lists,
            prefixes,
        )
}

/// How many names were found in the first `dirs` directories together.
pub fn total_matches(lists: &Vec<Vec<String>>, dirs: usize) -> (total: u128)
    ensures
        total == match_count(lists.deep_view(), dirs as int),
{
    let mut total: u128 = 0;
    let mut i: usize = 0;
    while i < dirs
        invariant
            i <= dirs,
            total == match_count(lists.deep_view(), i as int),
            total <= i * usize::MAX,
        decreases dirs - i,
    {
        let found: usize = if i < lists.len() {
            lists[i].len()
        } else {
            0
        };
        assert(found == list_at(lists.deep_view(), i as int).len());
        assert(i * usize::MAX + usize::MAX == (i + 1) * usize::MAX) by (nonlinear_arith);
        assert((i + 1) * usize::MAX <= usize::MAX * usize::MAX) by (nonlinear_arith)
            requires
                i + 1 <= usize::MAX,
        ;
        assert(usize::MAX * usize::MAX < u128::MAX) by (nonlinear_arith)
            requires
                usize::MAX <= 0xffff_ffff_ffff_ffff,
        ;
        total = total + found as u128;
        i += 1;
    }
    total
}

/// Renders the lines of one directory.
pub fn render_directory(app: &App, names: &Vec<String>, prefix: &str) -> (lines: Vec<String>)
    ensures
        lines.deep_view() == directory_lines(app@, names.deep_view(), prefix@),
{
    let mut lines: Vec<String> = Vec::new();
    if app.counts_only {
        lines.push(count_line(prefix, names.len()));
        assert(lines.deep_view() =~= seq![count_text(prefix@, names.deep_view().len())]);
        return lines;
    }
    let ghost render = |name: Seq<char>| render_template(app@.config.output_fmt, prefix@, name);
    let mut i: usize = 0;
    assert(lines.deep_view() =~= names.deep_view().take(0).map_values(render));
    while i < names.len()
        invariant
            i <= names.len(),
            render == (|name: Seq<char>| render_template(app@.config.output_fmt, prefix@, name)),
            lines.deep_view() == names.deep_view().take(i as int).map_values(render),
        decreases names.len() - i,
    {
        let ghost before = lines.deep_view();
        lines.push(render_line(app.config.output_fmt.as_str(), prefix, names[i].as_str()));
        assert(lines.deep_view() =~= before.push(render(names.deep_view()[i as int])));
        assert(names.deep_view().take(i + 1).map_values(render) =~= before.push(
            render(names.deep_view()[i as int]),
        ));
        i += 1;
    }
    assert(names.deep_view().take(i as int) == names.deep_view());
    lines
}

/// Renders the report of a run, with `prefixes[i]` as the prefix to show for
/// the directory at `i`.
pub fn render_with(app: &App, lists: &Vec<Vec<String>>, prefixes: &Vec<String>) -> (lines: Vec<
    String,
>)
    ensures
        lines.deep_view() == report_lines(app@, lists.deep_view(), prefixes.deep_view()),
{
    let mut lines: Vec<String> = Vec::new();
    let nothing: Vec<String> = Vec::new();
    let dirs = app.config.dirs.len();
    let mut i: usize = 0;
    assert(nothing.deep_view() =~= Seq::empty());
    assert(lines.deep_view() =~= body_lines(app@, lists.deep_view(), prefixes.deep_view(), 0));
    while i < dirs
        invariant
            i <= dirs == app@.config.dirs.len(),
            nothing.deep_view() == Seq::<Seq<char>>::empty(),
            lines.deep_view() == body_lines(
                app@,
                lists.deep_view(),
                prefixes.deep_view(),
                i as int,
            ),
        decreases dirs - i,
    {
        let names = if i < lists.len() {
            &lists[i]
        } else {
            &nothing
        };
        assert(names.deep_view() == list_at(lists.deep_view(), i as int));
        let prefix = if i < prefixes.len() {
            prefixes[i].as_str()
        } else {
            ""
        };
        assert(prefix@ == prefix_at(prefixes.deep_view(), i as int)) by {
            reveal_strlit("");
            assert(""@ =~= Seq::<char>::empty());
        }
        let ghost before = lines.deep_view();
        let mut more = render_directory(app, names, prefix);
        let ghost added = more.deep_view();
        lines.append(&mut more);
        assert(lines.deep_view() =~= before + added);
        i += 1;
    }
    if !app.counts_only && !app.no_count_output {
        let ghost before = lines.deep_view();
        let total = total_matches(lists, dirs);
        lines.push(summary_line(total));
        assert(lines.deep_view() =~= before.push(summary_text(total as nat)));
    }
    lines
}

/// The prefix of each directory as the terminal is to show it: the label of
/// the directory in its color.
pub fn paint_prefixes(dirs: &Vec<Dir>) -> (prefixes: Vec<String>)
    ensures
        prefixes.len() == dirs.len(),
{
    let mut prefixes: Vec<String> = Vec::new();
    let mut i: usize = 0;
    while i < dirs.len()
        invariant
            i <= dirs.len(),
            prefixes.len() == i,
        decreases dirs.len() - i,
    {
        let dir = &dirs[i];
        prefixes.push(paint(dir.raw_prefix.as_str(), dir.color[0], dir.color[1], dir.color[2]));
        i += 1;
    }
    prefixes
}

/// Renders the report of a run, each directory under its label in its color.
///
/// The colored labels come from outside and are not known beforehand: the
/// lines are the report for some prefixes, one for each directory.
pub fn render(app: &App, lists: &Vec<Vec<String>>) -> (lines: Vec<String>)
    ensures
        is_report(lines.deep_view(), app@, lists.deep_view()),
{
    let prefixes = paint_prefixes(&app.config.dirs);
    let lines = render_with(app, lists, &prefixes);
    assert(lines.deep_view() == report_lines(app@, lists.deep_view(), prefixes.deep_view()));
    lines
}

/// A report of counts has as many body lines as directories, and the line at
/// `i` is the count of the directory at `i`.
proof fn lemma_count_lines(
    app: AppModel,
    lists: Seq<Seq<Seq<char>>>,
    prefixes: Seq<Seq<char>>,
    n: int,
)
    requires
        app.counts_only,
        0 <= n,
    ensures
        body_lines(app, lists, prefixes, n).len() == n,
        forall|i: int|
            0 <= i < n ==> #[trigger] body_lines(app, lists, prefixes, n)[i] == count_text(
                prefix_at(prefixes, i),
                list_at(lists, i).len(),
            ),
    decreases n,
{
    if n > 0 {
        lemma_count_lines(app, lists, prefixes, n - 1);
        let before = body_lines(app, lists, prefixes, n - 1);
        assert forall|i: int| 0 <= i < n implies #[trigger] body_lines(app, lists, prefixes, n)[i]
            == count_text(prefix_at(prefixes, i), list_at(lists, i).len()) by {
            if i < n - 1 {
                assert(body_lines(app, lists, prefixes, n)[i] == before[i]);
            }
        }
    }
}

/// A report of counts is exactly one line for each directory, in the order of
/// the directories: the prefix of the directory, a colon and the number of its
/// matches. It holds no line for a match and no line that sums up.
pub proof fn lemma_counts_only_report(
    app: AppModel,
    lists: Seq<Seq<Seq<char>>>,
    prefixes: Seq<Seq<char>>,
)
    requires
        app.counts_only,
    ensures
        report_lines(app, lists, prefixes).len() == app.config.dirs.len(),
        forall|i: int|
            0 <= i < app.config.dirs.len() ==> #[trigger] report_lines(app, lists, prefixes)[i]
                == count_text(prefix_at(prefixes, i), list_at(lists, i).len()),
{
    lemma_count_lines(app, lists, prefixes, app.config.dirs.len() as int);
}

} // verus!
