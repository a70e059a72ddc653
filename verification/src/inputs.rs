//! The command-line and config inputs: value precedence, the quaternion column
//! list, TLE element lines, labeled markers, observation windows, and the
//! choice of where the TLE and the target come from.

use vstd::prelude::*;

use crate::pointing::ColumnSpec;
use crate::text::{has_prefix, split, split_once, split_once_seq, split_seq, trim, trim_seq, views};
use crate::time::{parse_utc, utc_nanos};

verus! {

/// Why an input was refused.
#[derive(Debug, Clone)]
pub enum InputError {
    /// The quaternion column list does not name exactly four columns.
    QuatColumns { given: String },
    /// The TLE text has neither the two element lines nor two non-empty lines.
    NoElementLines,
    /// A marker is not of the form `label=TIME`.
    MarkerSyntax { spec: String },
    /// A marker's time is not a timestamp.
    MarkerTime { time: String },
    /// A window is not of the form `start:end`.
    WindowSyntax { token: String },
    /// The config file's quaternion column list does not hold four names.
    ConfigQuatColumns,
    /// The config file's `tle` does not list the two element lines.
    ConfigTleLines,
    /// No TLE was given.
    NoTle,
    /// The config file's `target_ecef` is not `[x, y, z]`.
    ConfigTargetEcef,
    /// No target was given.
    NoTarget,
}

/// The precedence rule: an explicitly passed command-line value wins, then the
/// config-file value, then the command-line default.
pub open spec fn picked<T>(cli_explicit: bool, cli_value: T, config_value: Option<T>) -> T {
    if cli_explicit {
        cli_value
    } else {
        match config_value {
            Some(v) => v,
            None => cli_value,
        }
    }
}

/// Resolves a value with the conventional precedence: an explicitly-passed CLI
/// argument wins; otherwise the config-file value; otherwise the CLI default.
pub fn pick<T>(cli_explicit: bool, cli_value: T, config_value: Option<T>) -> (r: T)
    ensures
        r == picked(cli_explicit, cli_value, config_value),
{
    if cli_explicit {
        cli_value
    } else {
        match config_value {
            Some(v) => v,
            None => cli_value,
        }
    }
}

/// An explicitly passed command-line value always wins; without one, a value
/// from the config file wins over the command line's default; with neither,
/// the default stands.
pub proof fn law_flag_then_config_then_default<T>(
    cli_explicit: bool,
    cli_value: T,
    config_value: Option<T>,
)
    ensures
        cli_explicit ==> picked(cli_explicit, cli_value, config_value) == cli_value,
        !cli_explicit && config_value is Some ==> picked(cli_explicit, cli_value, config_value)
            == config_value.unwrap(),
        !cli_explicit && config_value is None ==> picked(cli_explicit, cli_value, config_value)
            == cli_value,
{
}

/// Builds the column names from a comma-separated `x,y,z,w` list (each name
/// trimmed) and the time column name. Fails unless the list has exactly four
/// entries.
pub fn parse_columns(quat_cols: &str, time_col: &str) -> (r: Result<ColumnSpec, InputError>)
    ensures
        r is Ok <==> split_seq(quat_cols@, ',').len() == 4,
        r matches Ok(c) ==> {
            let parts = split_seq(quat_cols@, ',');
            &&& c.time@ == time_col@
            &&& c.x@ == trim_seq(parts[0])
            &&& c.y@ == trim_seq(parts[1])
            &&& c.z@ == trim_seq(parts[2])
            &&& c.w@ == trim_seq(parts[3])
        },
        r matches Err(e) ==> e matches InputError::QuatColumns { given } && given@ == quat_cols@,
{
    let parts = split(quat_cols, ',');
    if parts.len() != 4 {
        return Err(InputError::QuatColumns { given: quat_cols.to_owned() });
    }
    proof {
        assert(parts@[0]@ == views(parts@)[0]);
        assert(parts@[1]@ == views(parts@)[1]);
        assert(parts@[2]@ == views(parts@)[2]);
        assert(parts@[3]@ == views(parts@)[3]);
    }
    Ok(
        ColumnSpec {
            time: time_col.to_owned(),
            x: trim(parts[0].as_str()).to_owned(),
            y: trim(parts[1].as_str()).to_owned(),
            z: trim(parts[2].as_str()).to_owned(),
            w: trim(parts[3].as_str()).to_owned(),
        },
    )
}

/// The non-blank entries of `pieces`, each trimmed, in order.
pub open spec fn content_lines(pieces: Seq<Seq<char>>) -> Seq<Seq<char>>
    decreases pieces.len(),
{
    if pieces.len() == 0 {
        Seq::empty()
    } else {
        let init = content_lines(pieces.drop_last());
        let t = trim_seq(pieces.last());
        if t.len() > 0 {
            init.push(t)
        } else {
            init
        }
    }
}

/// The trimmed non-blank lines of `text`.
pub open spec fn text_lines(text: Seq<char>) -> Seq<Seq<char>> {
    content_lines(split_seq(text, '\n'))
}

/// Index of the first entry of `ls` that begins with `p`.
pub open spec fn first_with_prefix(ls: Seq<Seq<char>>, p: Seq<char>) -> Option<int>
    decreases ls.len(),
{
    if ls.len() == 0 {
        None
    } else if has_prefix(ls[0], p) {
        Some(0)
    } else {
        match first_with_prefix(ls.drop_first(), p) {
            Some(i) => Some(i + 1),
            None => None,
        }
    }
}

proof fn lemma_first_with_prefix_found(ls: Seq<Seq<char>>, p: Seq<char>, i: int)
    requires
        0 <= i < ls.len(),
        has_prefix(ls[i], p),
        forall|j: int| 0 <= j < i ==> !has_prefix(#[trigger] ls[j], p),
    ensures
        first_with_prefix(ls, p) == Some(i),
    decreases i,
{
    if i > 0 {
        let t = ls.drop_first();
        assert(!has_prefix(ls[0], p));
        assert forall|j: int| 0 <= j < i - 1 implies !has_prefix(#[trigger] t[j], p) by {
            assert(t[j] == ls[j + 1]);
        }
        lemma_first_with_prefix_found(t, p, i - 1);
    }
}

proof fn lemma_first_with_prefix_absent(ls: Seq<Seq<char>>, p: Seq<char>)
    requires
        forall|j: int| 0 <= j < ls.len() ==> !has_prefix(#[trigger] ls[j], p),
    ensures
        first_with_prefix(ls, p) is None,
    decreases ls.len(),
{
    if ls.len() > 0 {
        let t = ls.drop_first();
        assert(!has_prefix(ls[0], p));
        assert forall|j: int| 0 <= j < t.len() implies !has_prefix(#[trigger] t[j], p) by {
            assert(t[j] == ls[j + 1]);
        }
        lemma_first_with_prefix_absent(t, p);
    }
}

/// The two element lines that a TLE text yields: the first lines beginning with
/// `1 ` and `2 `, else the last two lines; `None` when neither exists.
pub open spec fn element_lines(text: Seq<char>) -> Option<(Seq<char>, Seq<char>)> {
    let ls = text_lines(text);
    match (first_with_prefix(ls, seq!['1', ' ']), first_with_prefix(ls, seq!['2', ' '])) {
        (Some(a), Some(b)) => Some((ls[a], ls[b])),
        _ => if ls.len() >= 2 {
            Some((ls[ls.len() - 2], ls[ls.len() - 1]))
        } else {
            None
        },
    }
}

/// What a TLE text yields, by its non-blank lines: two lines are the element
/// lines as they stand (2LE), unless they come as a `2 ` line before a `1 `
/// line, which are put in order; a name line followed by a `1 ` line and a `2 `
/// line yields those two (3LE); fewer than two lines yield nothing.
pub proof fn law_two_and_three_line_sets(
    text: Seq<char>,
    name: Seq<char>,
    line1: Seq<char>,
    line2: Seq<char>,
)
    ensures
        text_lines(text) == seq![line1, line2] && !(has_prefix(line1, seq!['2', ' ']) && has_prefix(
            line2,
            seq!['1', ' '],
        )) ==> element_lines(text) == Some((line1, line2)),
        text_lines(text) == seq![line2, line1] && has_prefix(line1, seq!['1', ' ']) && has_prefix(
            line2,
            seq!['2', ' '],
        ) ==> element_lines(text) == Some((line1, line2)),
        text_lines(text) == seq![name, line1, line2] && has_prefix(line1, seq!['1', ' '])
            && has_prefix(line2, seq!['2', ' ']) && !has_prefix(name, seq!['1', ' ']) && !has_prefix(
            name,
            seq!['2', ' '],
        ) ==> element_lines(text) == Some((line1, line2)),
        text_lines(text).len() < 2 ==> element_lines(text) is None,
{
    reveal_with_fuel(first_with_prefix, 4);
    let ls = text_lines(text);
    if ls.len() == 2 {
        assert(ls.drop_first() =~= seq![ls[1]]);
        assert(ls.drop_first().drop_first() =~= Seq::<Seq<char>>::empty());
    }
    if ls.len() == 3 {
        assert(ls.drop_first() =~= seq![ls[1], ls[2]]);
        assert(ls.drop_first().drop_first() =~= seq![ls[2]]);
        assert(ls.drop_first().drop_first().drop_first() =~= Seq::<Seq<char>>::empty());
    }
}

/// The trimmed non-blank lines of `text`.
fn nonblank_lines(text: &str) -> (lines: Vec<String>)
    ensures
        views(lines@) == text_lines(text@),
{
    let pieces = split(text, '\n');
    let mut lines: Vec<String> = Vec::new();
    let mut i: usize = 0;
    assert(views(pieces@).take(0) =~= Seq::<Seq<char>>::empty());
    while i < pieces.len()
        invariant
            i <= pieces@.len(),
            views(pieces@) == split_seq(text@, '\n'),
            views(lines@) == content_lines(views(pieces@).take(i as int)),
        decreases pieces@.len() - i,
    {
        let t = trim(pieces[i].as_str());
        let ghost before = views(lines@);
        proof {
            assert(views(pieces@).take(i + 1).drop_last() =~= views(pieces@).take(i as int));
            assert(views(pieces@).take(i + 1).last() == pieces@[i as int]@);
        }
        if t.unicode_len() > 0 {
            lines.push(t.to_owned());
            assert(views(lines@) =~= before.push(t@));
        }
        i = i + 1;
    }
    assert(views(pieces@).take(pieces@.len() as int) =~= views(pieces@));
    lines
}

/// Index of the first line beginning with the digit `d` and a space.
fn find_element_line(lines: &Vec<String>, d: char) -> (r: Option<usize>)
    ensures
        match r {
            Some(i) => i < lines@.len() && first_with_prefix(views(lines@), seq![d, ' ']) == Some(
                i as int,
            ),
            None => first_with_prefix(views(lines@), seq![d, ' ']) is None,
        },
{
    let ghost ls = views(lines@);
    let ghost p = seq![d, ' '];
    let mut i: usize = 0;
    while i < lines.len()
        invariant
            i <= lines@.len(),
            ls == views(lines@),
            p == seq![d, ' '],
            forall|j: int| 0 <= j < i ==> !has_prefix(#[trigger] ls[j], p),
        decreases lines@.len() - i,
    {
        let s = lines[i].as_str();
        let hit = s.unicode_len() >= 2 && s.get_char(0) == d && s.get_char(1) == ' ';
        proof {
            assert(ls[i as int] == s@);
            if s@.len() >= 2 {
                assert(s@.subrange(0, 2) =~= seq![s@[0], s@[1]]);
            }
            assert(hit == has_prefix(ls[i as int], p));
        }
        if hit {
            proof {
                lemma_first_with_prefix_found(ls, p, i as int);
            }
            return Some(i);
        }
        i = i + 1;
    }
    proof {
        lemma_first_with_prefix_absent(ls, p);
    }
    None
}

/// Extracts the two TLE element lines from text (2LE, or 3LE with a name line):
/// the first lines beginning with `1 ` and `2 `, else the last two non-empty
/// lines. Lines are trimmed and blank lines are skipped.
pub fn parse_tle_lines(text: &str) -> (r: Result<(String, String), InputError>)
    ensures
        match element_lines(text@) {
            Some((a, b)) => r matches Ok((l1, l2)) && l1@ == a && l2@ == b,
            None => r matches Err(InputError::NoElementLines),
        },
{
    let lines = nonblank_lines(text);
    let ghost ls = views(lines@);
    let l1 = find_element_line(&lines, '1');
    let l2 = find_element_line(&lines, '2');
    match (l1, l2) {
        (Some(a), Some(b)) => {
            assert(lines@[a as int]@ == ls[a as int]);
            assert(lines@[b as int]@ == ls[b as int]);
            Ok((lines[a].clone(), lines[b].clone()))
        },
        _ => {
            let n = lines.len();
            if n >= 2 {
                assert(lines@[n - 2]@ == ls[n - 2]);
                assert(lines@[n - 1]@ == ls[n - 1]);
                Ok((lines[n - 2].clone(), lines[n - 1].clone()))
            } else {
                Err(InputError::NoElementLines)
            }
        },
    }
}

/// The trimmed label and time text of a `label=TIME` marker.
pub open spec fn marker_parts(spec: Seq<char>) -> Option<(Seq<char>, Seq<char>)> {
    match split_once_seq(spec, '=') {
        Some((a, b)) => Some((trim_seq(a), trim_seq(b))),
        None => None,
    }
}

/// The marker has a label, an `=` and a time that parses.
pub open spec fn marker_ok(spec: Seq<char>) -> bool {
    match marker_parts(spec) {
        Some((_, t)) => utc_nanos(t) is Some,
        None => false,
    }
}

/// `e` is the error that the refused marker `spec` is answered with.
pub open spec fn marker_error_is(e: InputError, spec: Seq<char>) -> bool {
    match marker_parts(spec) {
        None => e matches InputError::MarkerSyntax { spec: s } && s@ == spec,
        Some((_, t)) => e matches InputError::MarkerTime { time } && time@ == t,
    }
}

/// Splits a `label=TIME` marker at its first `=` into the trimmed label and
/// time text.
pub fn split_marker(spec: &str) -> (r: Result<(String, String), InputError>)
    ensures
        match marker_parts(spec@) {
            Some((l, t)) => r matches Ok((a, b)) && a@ == l && b@ == t,
            None => r matches Err(InputError::MarkerSyntax { spec: s }) && s@ == spec@,
        },
{
    match split_once(spec, '=') {
        Some((label, time)) => Ok(
            (trim(label.as_str()).to_owned(), trim(time.as_str()).to_owned()),
        ),
        None => Err(InputError::MarkerSyntax { spec: spec.to_owned() }),
    }
}

/// A marker from its label and time text, given what parsing the time text
/// gave: nanoseconds since the Unix epoch, or `None` when it is no timestamp.
pub fn marker_with_time(label: String, time: String, nanos: Option<i128>) -> (r: Result<
    (String, i128),
    InputError,
>)
    ensures
        match nanos {
            Some(ns) => r matches Ok((l, m)) && l@ == label@ && m == ns,
            None => r matches Err(InputError::MarkerTime { time: t }) && t@ == time@,
        },
{
    match nanos {
        Some(ns) => Ok((label, ns)),
        None => Err(InputError::MarkerTime { time }),
    }
}

/// Parses labeled markers `label=TIME`: each label trimmed, each time an
/// ISO-8601 timestamp as nanoseconds since the Unix epoch. The first refused
/// marker decides the error.
pub fn parse_markers(specs: &[String]) -> (r: Result<Vec<(String, i128)>, InputError>)
    ensures
        r is Ok <==> forall|k: int| 0 <= k < specs@.len() ==> #[trigger] marker_ok(specs@[k]@),
        r matches Ok(v) ==> {
            &&& v@.len() == specs@.len()
            &&& forall|k: int|
                #![trigger v@[k]]
                0 <= k < specs@.len() ==> v@[k].0@ == marker_parts(specs@[k]@).unwrap().0 && v@[k].1
                    == utc_nanos(marker_parts(specs@[k]@).unwrap().1)->0
        },
        r matches Err(e) ==> exists|k: int|
            0 <= k < specs@.len() && !marker_ok(specs@[k]@) && (forall|j: int|
                0 <= j < k ==> #[trigger] marker_ok(specs@[j]@)) && marker_error_is(e, specs@[k]@),
{
    let mut out: Vec<(String, i128)> = Vec::new();
    let mut k: usize = 0;
    while k < specs.len()
        invariant
            k <= specs@.len(),
            out@.len() == k,
            forall|j: int| 0 <= j < k ==> #[trigger] marker_ok(specs@[j]@),
            forall|j: int|
                #![trigger out@[j]]
                0 <= j < k ==> out@[j].0@ == marker_parts(specs@[j]@).unwrap().0 && out@[j].1 == utc_nanos(
                    marker_parts(specs@[j]@).unwrap().1,
                ).unwrap(),
        decreases specs@.len() - k,
    {
        let spec = specs[k].as_str();
        let (label, time) = match split_marker(spec) {
            Ok(parts) => parts,
            Err(e) => {
                assert(!marker_ok(specs@[k as int]@));
                return Err(e);
            },
        };
        let nanos = parse_utc(time.as_str());
        let ghost time_view = time@;
        match marker_with_time(label, time, nanos) {
            Ok(m) => {
                out.push(m);
            },
            Err(e) => {
                assert(!marker_ok(specs@[k as int]@));
                assert(marker_error_is(e, specs@[k as int]@));
                return Err(e);
            },
        }
        k = k + 1;
    }
    Ok(out)
}

/// The trimmed start and end texts of one `start:end` window token.
pub open spec fn window_parts(token: Seq<char>) -> Option<(Seq<char>, Seq<char>)> {
    match split_once_seq(token, ':') {
        Some((a, b)) => Some((trim_seq(a), trim_seq(b))),
        None => None,
    }
}

/// Splits a window list `start:end,...` into the trimmed bound texts of each
/// window. A token without `:` is refused; the first such token decides the
/// error. The bounds are numbers of seconds that the caller reads.
pub fn split_windows(s: &str) -> (r: Result<Vec<(String, String)>, InputError>)
    ensures
        r is Ok <==> forall|k: int|
            0 <= k < split_seq(s@, ',').len() ==> #[trigger] window_parts(split_seq(s@, ',')[k]) is Some,
        r matches Ok(v) ==> {
            &&& v@.len() == split_seq(s@, ',').len()
            &&& forall|k: int|
                #![trigger v@[k]]
                0 <= k < v@.len() ==> v@[k].0@ == window_parts(split_seq(s@, ',')[k]).unwrap().0
                    && v@[k].1@ == window_parts(split_seq(s@, ',')[k]).unwrap().1
        },
        r matches Err(e) ==> exists|k: int|
            0 <= k < split_seq(s@, ',').len() && window_parts(split_seq(s@, ',')[k]) is None && (
            forall|j: int| 0 <= j < k ==> #[trigger] window_parts(split_seq(s@, ',')[j]) is Some) && (
            e matches InputError::WindowSyntax { token } && token@ == split_seq(s@, ',')[k]),
{
    let toks = split(s, ',');
    let ghost tv = split_seq(s@, ',');
    let mut out: Vec<(String, String)> = Vec::new();
    let mut k: usize = 0;
    while k < toks.len()
        invariant
            tv == split_seq(s@, ','),
            views(toks@) == tv,
            k <= toks@.len(),
            out@.len() == k,
            forall|j: int| 0 <= j < k ==> #[trigger] window_parts(tv[j]) is Some,
            forall|j: int|
                #![trigger out@[j]]
                0 <= j < k ==> out@[j].0@ == window_parts(tv[j]).unwrap().0 && out@[j].1@ == window_parts(
                    tv[j],
                ).unwrap().1,
        decreases toks@.len() - k,
    {
        let tok = toks[k].as_str();
        assert(tok@ == tv[k as int]);
        match split_once(tok, ':') {
            Some((a, b)) => {
                out.push((trim(a.as_str()).to_owned(), trim(b.as_str()).to_owned()));
            },
            None => {
                let err = InputError::WindowSyntax { token: tok.to_owned() };
                assert(window_parts(tv[k as int]) is None);
                return Err(err);
            },
        }
        k = k + 1;
    }
    Ok(out)
}

/// The column names from the command line and the config file: an explicit
/// `--quat-cols` list wins, then the config's four names (taken as they are),
/// then the command line's default list.
pub fn resolve_columns(
    quat_cols_explicit: bool,
    cli_quat_cols: &str,
    config_quat_cols: Option<Vec<String>>,
    time_col: String,
) -> (r: Result<ColumnSpec, InputError>)
    ensures
        quat_cols_explicit || config_quat_cols is None ==> {
            &&& r is Ok <==> split_seq(cli_quat_cols@, ',').len() == 4
            &&& r matches Ok(c) ==> {
                let parts = split_seq(cli_quat_cols@, ',');
                &&& c.time@ == time_col@
                &&& c.x@ == trim_seq(parts[0])
                &&& c.y@ == trim_seq(parts[1])
                &&& c.z@ == trim_seq(parts[2])
                &&& c.w@ == trim_seq(parts[3])
            }
            &&& r matches Err(e) ==> e matches InputError::QuatColumns { given } && given@
                == cli_quat_cols@
        },
        !quat_cols_explicit && config_quat_cols is Some ==> {
            let q = config_quat_cols.unwrap();
            &&& r is Ok <==> q@.len() == 4
            &&& r matches Ok(c) ==> c.time@ == time_col@ && c.x@ == q@[0]@ && c.y@ == q@[1]@
                && c.z@ == q@[2]@ && c.w@ == q@[3]@
            &&& r matches Err(e) ==> e matches InputError::ConfigQuatColumns
        },
{
    if quat_cols_explicit {
        return parse_columns(cli_quat_cols, time_col.as_str());
    }
    match config_quat_cols {
        Some(q) => {
            if q.len() == 4 {
                Ok(
                    ColumnSpec {
                        time: time_col,
                        x: q[0].clone(),
                        y: q[1].clone(),
                        z: q[2].clone(),
                        w: q[3].clone(),
                    },
                )
            } else {
                Err(InputError::ConfigQuatColumns)
            }
        },
        None => parse_columns(cli_quat_cols, time_col.as_str()),
    }
}

/// Where the TLE comes from.
#[derive(Debug, Clone)]
pub enum TleSource {
    /// Read the element lines from this file. `in_config` tells that the path
    /// came from the config file, so it resolves against the file's directory.
    File { path: String, in_config: bool },
    /// The two element lines, given directly.
    Lines { line1: String, line2: String },
}

/// The TLE source rule: the command line's `--tle-file`, then its
/// `--tle1`/`--tle2` pair, then the config's `tle` lines (at least two), then
/// the config's `tle_file`.
pub open spec fn tle_source_rule(
    cli_tle_file: Option<String>,
    cli_tle1: Option<String>,
    cli_tle2: Option<String>,
    config_tle: Option<Vec<String>>,
    config_tle_file: Option<String>,
) -> Result<TleSource, InputError> {
    if cli_tle_file is Some {
        Ok(TleSource::File { path: cli_tle_file.unwrap(), in_config: false })
    } else if cli_tle1 is Some && cli_tle2 is Some {
        Ok(TleSource::Lines { line1: cli_tle1.unwrap(), line2: cli_tle2.unwrap() })
    } else if config_tle is Some {
        let t = config_tle.unwrap();
        if t@.len() >= 2 {
            Ok(TleSource::Lines { line1: t@[0], line2: t@[1] })
        } else {
            Err(InputError::ConfigTleLines)
        }
    } else if config_tle_file is Some {
        Ok(TleSource::File { path: config_tle_file.unwrap(), in_config: true })
    } else {
        Err(InputError::NoTle)
    }
}

/// Where the TLE comes from, case by case: `--tle-file` whatever else is
/// given; else both `--tle1` and `--tle2`; else the config's `tle` list, whose
/// first two entries are the element lines as soon as it holds two, and which
/// is refused only when it holds fewer; else the config's `tle_file`; else no
/// TLE at all.
pub proof fn law_tle_source_cases(
    cli_tle_file: Option<String>,
    cli_tle1: Option<String>,
    cli_tle2: Option<String>,
    config_tle: Option<Vec<String>>,
    config_tle_file: Option<String>,
)
    ensures
        ({
            let r = tle_source_rule(cli_tle_file, cli_tle1, cli_tle2, config_tle, config_tle_file);
            let no_cli_lines = !(cli_tle1 is Some && cli_tle2 is Some);
            let t = config_tle.unwrap();
            &&& cli_tle_file is Some ==> r == Ok::<TleSource, InputError>(
                TleSource::File { path: cli_tle_file.unwrap(), in_config: false },
            )
            &&& cli_tle_file is None && cli_tle1 is Some && cli_tle2 is Some ==> r == Ok::<
                TleSource,
                InputError,
            >(TleSource::Lines { line1: cli_tle1.unwrap(), line2: cli_tle2.unwrap() })
            &&& cli_tle_file is None && no_cli_lines && config_tle is Some && t@.len() >= 2 ==> r
                == Ok::<TleSource, InputError>(TleSource::Lines { line1: t@[0], line2: t@[1] })
            &&& cli_tle_file is None && no_cli_lines && config_tle is Some && t@.len() < 2 ==> r
                == Err::<TleSource, InputError>(InputError::ConfigTleLines)
            &&& cli_tle_file is None && no_cli_lines && config_tle is None && config_tle_file is Some
                ==> r == Ok::<TleSource, InputError>(
                TleSource::File { path: config_tle_file.unwrap(), in_config: true },
            )
            &&& cli_tle_file is None && no_cli_lines && config_tle is None && config_tle_file is None
                ==> r == Err::<TleSource, InputError>(InputError::NoTle)
            &&& (r == Err::<TleSource, InputError>(InputError::ConfigTleLines) ==> config_tle is Some
                && t@.len() < 2)
        }),
{
}

/// Chooses where the TLE comes from, preferring explicit command-line flags
/// (`--tle-file`, then `--tle1`/`--tle2`) over the config file (`tle`, then
/// `tle_file`).
pub fn tle_source(
    cli_tle_file: Option<String>,
    cli_tle1: Option<String>,
    cli_tle2: Option<String>,
    config_tle: Option<Vec<String>>,
    config_tle_file: Option<String>,
) -> (r: Result<TleSource, InputError>)
    ensures
        r == tle_source_rule(cli_tle_file, cli_tle1, cli_tle2, config_tle, config_tle_file),
{
    if let Some(path) = cli_tle_file {
        return Ok(TleSource::File { path, in_config: false });
    }
    if let (Some(line1), Some(line2)) = (cli_tle1, cli_tle2) {
        return Ok(TleSource::Lines { line1, line2 });
    }
    if let Some(t) = config_tle {
        if t.len() >= 2 {
            return Ok(TleSource::Lines { line1: t[0].clone(), line2: t[1].clone() });
        }
        return Err(InputError::ConfigTleLines);
    }
    if let Some(path) = config_tle_file {
        return Ok(TleSource::File { path, in_config: true });
    }
    Err(InputError::NoTle)
}

/// Where the target position comes from.
#[derive(Debug, Clone, Copy, PartialEq, Eq, Structural)]
pub enum TargetSource {
    /// `--target-ecef`.
    CliEcef,
    /// `--target-lat` with `--target-lon`.
    CliLatLon,
    /// The config's `target_ecef`.
    ConfigEcef,
    /// The config's `target_lat` with `target_lon`.
    ConfigLatLon,
}

/// The target source rule: command-line ECEF, then command-line latitude and
/// longitude, then the config's ECEF (exactly three numbers), then its
/// latitude and longitude.
pub open spec fn target_source_rule(
    cli_ecef: bool,
    cli_lat_lon: bool,
    config_ecef_len: Option<usize>,
    config_lat_lon: bool,
) -> Result<TargetSource, InputError> {
    if cli_ecef {
        Ok(TargetSource::CliEcef)
    } else if cli_lat_lon {
        Ok(TargetSource::CliLatLon)
    } else if config_ecef_len is Some {
        if config_ecef_len.unwrap() == 3 {
            Ok(TargetSource::ConfigEcef)
        } else {
            Err(InputError::ConfigTargetEcef)
        }
    } else if config_lat_lon {
        Ok(TargetSource::ConfigLatLon)
    } else {
        Err(InputError::NoTarget)
    }
}

/// Where the target comes from, case by case: `--target-ecef` whatever else is
/// given; else `--target-lat` with `--target-lon`, whatever the config holds;
/// else the config's `target_ecef`, refused unless it has three entries; else
/// the config's latitude and longitude; else no target at all.
pub proof fn law_target_source_cases(
    cli_ecef: bool,
    cli_lat_lon: bool,
    config_ecef_len: Option<usize>,
    config_lat_lon: bool,
)
    ensures
        ({
            let r = target_source_rule(cli_ecef, cli_lat_lon, config_ecef_len, config_lat_lon);
            &&& cli_ecef ==> r == Ok::<TargetSource, InputError>(TargetSource::CliEcef)
            &&& !cli_ecef && cli_lat_lon ==> r == Ok::<TargetSource, InputError>(
                TargetSource::CliLatLon,
            )
            &&& !cli_ecef && !cli_lat_lon && config_ecef_len == Some(3usize) ==> r == Ok::<
                TargetSource,
                InputError,
            >(TargetSource::ConfigEcef)
            &&& !cli_ecef && !cli_lat_lon && config_ecef_len is Some && config_ecef_len.unwrap()
                != 3 ==> r
                == Err::<TargetSource, InputError>(InputError::ConfigTargetEcef)
            &&& !cli_ecef && !cli_lat_lon && config_ecef_len is None && config_lat_lon ==> r == Ok::<
                TargetSource,
                InputError,
            >(TargetSource::ConfigLatLon)
            &&& !cli_ecef && !cli_lat_lon && config_ecef_len is None && !config_lat_lon ==> r
                == Err::<TargetSource, InputError>(InputError::NoTarget)
            &&& (r == Err::<TargetSource, InputError>(InputError::NoTarget) ==> !cli_ecef && !cli_lat_lon
                && config_ecef_len is None && !config_lat_lon)
        }),
{
}

/// Chooses where the target position comes from, preferring explicit
/// command-line flags over the config file. `cli_lat_lon` and `config_lat_lon`
/// tell that both latitude and longitude were given; `config_ecef_len` is the
/// length of the config's `target_ecef` list, if present.
pub fn target_source(
    cli_ecef: bool,
    cli_lat_lon: bool,
    config_ecef_len: Option<usize>,
    config_lat_lon: bool,
) -> (r: Result<TargetSource, InputError>)
    ensures
        r == target_source_rule(cli_ecef, cli_lat_lon, config_ecef_len, config_lat_lon),
{
    if cli_ecef {
        return Ok(TargetSource::CliEcef);
    }
    if cli_lat_lon {
        return Ok(TargetSource::CliLatLon);
    }
    if let Some(n) = config_ecef_len {
        if n == 3 {
            return Ok(TargetSource::ConfigEcef);
        }
        return Err(InputError::ConfigTargetEcef);
    }
    if config_lat_lon {
        return Ok(TargetSource::ConfigLatLon);
    }
    Err(InputError::NoTarget)
}

} // verus!
