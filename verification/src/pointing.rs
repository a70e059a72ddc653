//! Attitude telemetry: how the quaternion is stored, which CSV columns hold
//! the time and its components, the reading of the attitude table, the time
//! order of its samples and the bracket of an instant among them.

use vstd::prelude::*;

use crate::text::{trim, trim_seq, views};
use crate::time::{parse_utc, utc_nanos};

verus! {

/// Quaternion storage convention.
#[derive(Clone, Copy, PartialEq, Eq, Debug, Structural)]
pub enum Convention {
    /// Quaternion rotates a body vector into the inertial frame (default).
    BodyToInertial,
    /// Quaternion rotates an inertial vector into the body frame.
    InertialToBody,
}

/// Names of the CSV columns to read. The quaternion is scalar-last `(x, y, z, w)`.
#[derive(Clone, Debug)]
pub struct ColumnSpec {
    pub time: String,
    pub x: String,
    pub y: String,
    pub z: String,
    pub w: String,
}

impl Default for ColumnSpec {
    /// The column names `time, qx, qy, qz, qw`.
    fn default() -> (c: Self)
        ensures
            c.time@ == "time"@,
            c.x@ == "qx"@,
            c.y@ == "qy"@,
            c.z@ == "qz"@,
            c.w@ == "qw"@,
    {
        ColumnSpec {
            time: "time".to_owned(),
            x: "qx".to_owned(),
            y: "qy".to_owned(),
            z: "qz".to_owned(),
            w: "qw".to_owned(),
        }
    }
}

/// Why an attitude CSV was refused.
#[derive(Debug, Clone)]
pub enum TrackError {
    /// The data is not a well-formed CSV table with a header row.
    Csv,
    /// No header names this column.
    MissingColumn { name: String },
    /// A time cell is not a timestamp.
    Time { text: String },
    /// The table has fewer than two samples.
    TooFewSamples,
}

/// The csv crate's error.
#[verifier::external_type_specification]
#[verifier::external_body]
pub struct ExCsvError(csv::Error);

/// What the csv crate's default reader reads from `data`: the header row, the
/// records read before its first error, each a list of cells, and whether it
/// read to the end without an error; `None` when it cannot read the header row.
pub uninterp spec fn csv_table(data: Seq<u8>) -> Option<
    (Seq<Seq<char>>, Seq<Seq<Seq<char>>>, bool),
>;

/// The cells of a list of rows.
pub open spec fn row_views(rows: Seq<Vec<String>>) -> Seq<Seq<Seq<char>>> {
    rows.map_values(|row: Vec<String>| views(row@))
}

/// Reads `data` with `csv::Reader::from_reader` (default settings: the first
/// row is the header, comma delimiter, no trimming) through `headers` and
/// `records`, copying every cell into a `String`, and stops at the first record
/// the reader reports an error for. Claimed: the outcome depends on the bytes
/// alone, and every record read has as many cells as the header row, as the
/// reader refuses records of unequal length by default.
#[verifier::external_body]
fn read_csv(data: &[u8]) -> (r: Result<(Vec<String>, Vec<Vec<String>>, bool), csv::Error>)
    ensures
        match r {
            Ok((h, rows, complete)) => {
                &&& csv_table(data@) == Some((views(h@), row_views(rows@), complete))
                &&& forall|i: int| 0 <= i < rows@.len() ==> #[trigger] rows@[i]@.len() == h@.len()
            },
            Err(_) => csv_table(data@) is None,
        },
{
    let mut rdr = csv::Reader::from_reader(data);
    let mut headers: Vec<String> = Vec::new();
    for h in rdr.headers()?.iter() {
        headers.push(h.to_owned());
    }
    let mut rows: Vec<Vec<String>> = Vec::new();
    for rec in rdr.records() {
        let rec = match rec {
            Ok(rec) => rec,
            Err(_) => return Ok((headers, rows, false)),
        };
        rows.push(rec.iter().map(|c| c.to_owned()).collect());
    }
    Ok((headers, rows, true))
}

/// Header `i` is the first whose trimmed text is `name`.
pub open spec fn first_column(headers: Seq<Seq<char>>, name: Seq<char>, i: int) -> bool {
    &&& 0 <= i < headers.len()
    &&& trim_seq(headers[i]) == name
    &&& forall|j: int| 0 <= j < i ==> trim_seq(#[trigger] headers[j]) != name
}

/// Some header's trimmed text is `name`.
pub open spec fn has_column(headers: Seq<Seq<char>>, name: Seq<char>) -> bool {
    exists|j: int| 0 <= j < headers.len() && trim_seq(#[trigger] headers[j]) == name
}

/// The position of the first header whose trimmed text is `name`.
fn find_column(headers: &Vec<String>, name: &String) -> (r: Result<usize, TrackError>)
    ensures
        match r {
            Ok(i) => first_column(views(headers@), name@, i as int),
            Err(e) => !has_column(views(headers@), name@) && (e matches TrackError::MissingColumn {
                name: n,
            } && n@ == name@),
        },
{
    let ghost hv = views(headers@);
    let mut i: usize = 0;
    while i < headers.len()
        invariant
            hv == views(headers@),
            i <= headers@.len(),
            forall|j: int| 0 <= j < i ==> trim_seq(#[trigger] hv[j]) != name@,
        decreases headers@.len() - i,
    {
        let t = trim(headers[i].as_str());
        assert(hv[i as int] == headers@[i as int]@);
        if t.unicode_len() == name.as_str().unicode_len() && crate::text::same_text(t, name.as_str()) {
            return Ok(i);
        }
        i = i + 1;
    }
    Err(TrackError::MissingColumn { name: name.clone() })
}

/// One attitude row: its time in nanoseconds since the Unix epoch and the
/// trimmed texts of the quaternion components `x, y, z, w`.
#[derive(Debug, Clone)]
pub struct AttitudeRow {
    pub t_ns: i128,
    pub x: String,
    pub y: String,
    pub z: String,
    pub w: String,
}

/// Column positions of `cols` in `headers`, in the order time, x, y, z, w.
pub open spec fn column_positions(
    headers: Seq<Seq<char>>,
    cols: ColumnSpec,
    p: (int, int, int, int, int),
) -> bool {
    &&& first_column(headers, cols.time@, p.0)
    &&& first_column(headers, cols.x@, p.1)
    &&& first_column(headers, cols.y@, p.2)
    &&& first_column(headers, cols.z@, p.3)
    &&& first_column(headers, cols.w@, p.4)
}

/// Every column of `cols` is named by some header.
pub open spec fn all_columns(headers: Seq<Seq<char>>, cols: ColumnSpec) -> bool {
    &&& has_column(headers, cols.time@)
    &&& has_column(headers, cols.x@)
    &&& has_column(headers, cols.y@)
    &&& has_column(headers, cols.z@)
    &&& has_column(headers, cols.w@)
}

/// `e` names the first column of `cols` (in the order time, x, y, z, w) that no
/// header names.
pub open spec fn missing_column_error(e: TrackError, headers: Seq<Seq<char>>, cols: ColumnSpec) -> bool {
    e matches TrackError::MissingColumn { name } && {
        let n = name@;
        if !has_column(headers, cols.time@) {
            n == cols.time@
        } else if !has_column(headers, cols.x@) {
            n == cols.x@
        } else if !has_column(headers, cols.y@) {
            n == cols.y@
        } else if !has_column(headers, cols.z@) {
            n == cols.z@
        } else {
            n == cols.w@
        }
    }
}

/// Row `row` read with the columns at `p`: its trimmed time text parses, and
/// `a` holds that time and the trimmed component texts.
pub open spec fn row_read(row: Seq<Seq<char>>, p: (int, int, int, int, int), a: AttitudeRow) -> bool {
    &&& utc_nanos(trim_seq(row[p.0])) == Some(a.t_ns as int)
    &&& a.x@ == trim_seq(row[p.1])
    &&& a.y@ == trim_seq(row[p.2])
    &&& a.z@ == trim_seq(row[p.3])
    &&& a.w@ == trim_seq(row[p.4])
}

/// The trimmed time cell of `row` parses.
pub open spec fn time_ok(row: Seq<Seq<char>>, p: (int, int, int, int, int)) -> bool {
    utc_nanos(trim_seq(row[p.0])) is Some
}

/// The attitude rows read from a CSV table, in the order of the data, and why
/// the reading stopped before the end of the data, if it did.
#[derive(Debug)]
pub struct AttitudeTable {
    pub rows: Vec<AttitudeRow>,
    pub stop: Option<TrackError>,
}

/// `t` holds the rows of `rv`, read with the columns at `p`, that come before
/// the first whose time cell does not parse. The reading stops at that row with
/// its time error; else at the end of the records read, with a CSV error when
/// the reader met one (`complete` false) and with none when it read to the end.
pub open spec fn table_read(
    rv: Seq<Seq<Seq<char>>>,
    complete: bool,
    p: (int, int, int, int, int),
    t: AttitudeTable,
) -> bool {
    let n = t.rows@.len();
    &&& n <= rv.len()
    &&& forall|i: int| 0 <= i < n ==> #[trigger] row_read(rv[i], p, t.rows@[i])
    &&& if n < rv.len() {
        &&& !time_ok(rv[n as int], p)
        &&& t.stop matches Some(TrackError::Time { text }) && text@ == trim_seq(rv[n as int][p.0])
    } else if complete {
        t.stop is None
    } else {
        t.stop matches Some(TrackError::Csv)
    }
}

/// Reads the attitude rows of a CSV table: locates the time and quaternion
/// columns by their trimmed header names, then parses each row's trimmed time
/// cell, up to the first that does not parse. `complete` tells whether the
/// records are all the data held (else the reader met an error after them).
/// Every record must have as many cells as the header row.
pub fn attitude_rows(
    headers: &Vec<String>,
    records: &Vec<Vec<String>>,
    complete: bool,
    cols: &ColumnSpec,
) -> (r: Result<AttitudeTable, TrackError>)
    requires
        forall|i: int| 0 <= i < records@.len() ==> #[trigger] records@[i]@.len() == headers@.len(),
    ensures
        ({
            let hv = views(headers@);
            let rv = row_views(records@);
            &&& !all_columns(hv, *cols) ==> (r matches Err(e) && missing_column_error(e, hv, *cols))
            &&& all_columns(hv, *cols) ==> exists|p: (int, int, int, int, int)|
                #[trigger] column_positions(hv, *cols, p) && (r matches Ok(t) && table_read(
                    rv,
                    complete,
                    p,
                    t,
                ))
        }),
{
    let ghost hv = views(headers@);
    let ghost rv = row_views(records@);
    let ct = match find_column(headers, &cols.time) {
        Ok(i) => i,
        Err(e) => return Err(e),
    };
    let cx = match find_column(headers, &cols.x) {
        Ok(i) => i,
        Err(e) => return Err(e),
    };
    let cy = match find_column(headers, &cols.y) {
        Ok(i) => i,
        Err(e) => return Err(e),
    };
    let cz = match find_column(headers, &cols.z) {
        Ok(i) => i,
        Err(e) => return Err(e),
    };
    let cw = match find_column(headers, &cols.w) {
        Ok(i) => i,
        Err(e) => return Err(e),
    };
    let ghost p = (ct as int, cx as int, cy as int, cz as int, cw as int);
    assert(column_positions(hv, *cols, p));
    let mut out: Vec<AttitudeRow> = Vec::new();
    let mut i: usize = 0;
    while i < records.len()
        invariant
            hv == views(headers@),
            rv == row_views(records@),
            forall|k: int| 0 <= k < records@.len() ==> #[trigger] records@[k]@.len() == headers@.len(),
            column_positions(hv, *cols, p),
            p == (ct as int, cx as int, cy as int, cz as int, cw as int),
            i <= records@.len(),
            out@.len() == i,
            forall|j: int| 0 <= j < i ==> #[trigger] row_read(rv[j], p, out@[j]),
        decreases records@.len() - i,
    {
        let rec = &records[i];
        proof {
            assert(rv[i as int] == views(rec@));
            assert(rec@.len() == headers@.len());
            assert(rv[i as int][p.0] == rec@[p.0]@);
            assert(rv[i as int][p.1] == rec@[p.1]@);
            assert(rv[i as int][p.2] == rec@[p.2]@);
            assert(rv[i as int][p.3] == rec@[p.3]@);
            assert(rv[i as int][p.4] == rec@[p.4]@);
        }
        let time_text = trim(rec[ct].as_str());
        let t_ns = match parse_utc(time_text) {
            Some(ns) => ns,
            None => {
                let stop = Some(TrackError::Time { text: time_text.to_owned() });
                let t = AttitudeTable { rows: out, stop };
                assert(table_read(rv, complete, p, t));
                return Ok(t);
            },
        };
        let row = AttitudeRow {
            t_ns,
            x: trim(rec[cx].as_str()).to_owned(),
            y: trim(rec[cy].as_str()).to_owned(),
            z: trim(rec[cz].as_str()).to_owned(),
            w: trim(rec[cw].as_str()).to_owned(),
        };
        assert(row_read(rv[i as int], p, row));
        out.push(row);
        i = i + 1;
    }
    let stop = if complete {
        None
    } else {
        Some(TrackError::Csv)
    };
    let t = AttitudeTable { rows: out, stop };
    assert(table_read(rv, complete, p, t));
    Ok(t)
}

/// The attitude table that `data` holds, read with the columns `cols`: the
/// header and records of the CSV, located columns, and each row's time parsed,
/// up to the first record the CSV reader refuses or whose time does not parse.
/// Rows keep their order in the data.
pub fn read_attitude_csv(data: &[u8], cols: &ColumnSpec) -> (r: Result<AttitudeTable, TrackError>)
    ensures
        csv_table(data@) is None ==> r matches Err(TrackError::Csv),
        csv_table(data@) matches Some((hv, rv, complete)) ==> {
            &&& !all_columns(hv, *cols) ==> (r matches Err(e) && missing_column_error(e, hv, *cols))
            &&& all_columns(hv, *cols) ==> exists|p: (int, int, int, int, int)|
                #[trigger] column_positions(hv, *cols, p) && (r matches Ok(t) && table_read(
                    rv,
                    complete,
                    p,
                    t,
                ))
        },
{
    let (headers, records, complete) = match read_csv(data) {
        Ok(table) => table,
        Err(_) => return Err(TrackError::Csv),
    };
    attitude_rows(&headers, &records, complete, cols)
}

/// The sample times of attitude rows.
pub open spec fn row_times(rows: Seq<AttitudeRow>) -> Seq<i128> {
    rows.map_values(|a: AttitudeRow| a.t_ns)
}

impl AttitudeTable {
    /// Ends the reading of a table whose rows were all accepted: the error that
    /// stopped the reading, if one did; else `TooFewSamples` when fewer than two
    /// rows were read; else the positions of the rows in time order, samples at
    /// the same time keeping their order in the data.
    pub fn finish(self) -> (r: Result<Vec<usize>, TrackError>)
        ensures
            match self.stop {
                Some(e) => r == Err::<Vec<usize>, TrackError>(e),
                None => if self.rows@.len() < 2 {
                    r matches Err(TrackError::TooFewSamples)
                } else {
                    r matches Ok(order) && is_time_order(row_times(self.rows@), order@)
                },
            },
    {
        let AttitudeTable { rows, stop } = self;
        if let Some(e) = stop {
            return Err(e);
        }
        if rows.len() < 2 {
            return Err(TrackError::TooFewSamples);
        }
        let mut times: Vec<i128> = Vec::new();
        let mut i: usize = 0;
        while i < rows.len()
            invariant
                i <= rows@.len(),
                times@.len() == i,
                forall|j: int| 0 <= j < i ==> times@[j] == #[trigger] rows@[j].t_ns,
            decreases rows@.len() - i,
        {
            times.push(rows[i].t_ns);
            i = i + 1;
        }
        assert(times@ == row_times(rows@));
        Ok(order_by_time(&times))
    }
}

/// Sample `a` comes before sample `b` in time order: earlier, or at the same
/// time and earlier in the data.
pub open spec fn time_before(times: Seq<i128>, a: int, b: int) -> bool {
    times[a] < times[b] || (times[a] == times[b] && a < b)
}

/// `order` lists the sample positions `0..times.len()` sorted by time, keeping
/// samples with equal times in their original order.
pub open spec fn is_time_order(times: Seq<i128>, order: Seq<usize>) -> bool {
    &&& order.len() == times.len()
    &&& forall|i: int| 0 <= i < order.len() ==> #[trigger] order[i] < times.len()
    &&& forall|i: int, j: int|
        0 <= i < j < order.len() ==> time_before(times, #[trigger] order[i] as int, #[trigger] order[j] as int)
}

/// A time order keeps every sample: each position `k` of the samples appears
/// in it, so the order is a permutation of the samples.
pub proof fn lemma_time_order_keeps_every_sample(times: Seq<i128>, order: Seq<usize>, k: int)
    requires
        is_time_order(times, order),
        0 <= k < times.len(),
    ensures
        exists|i: int| 0 <= i < order.len() && order[i] == k,
{
    broadcast use vstd::seq_lib::seq_to_set_is_finite;

    let n = times.len() as int;
    let o = order.map_values(|x: usize| x as int);
    assert forall|i: int, j: int| 0 <= i < o.len() && 0 <= j < o.len() && i != j implies o[i] != o[j] by {
        if i < j {
            assert(time_before(times, order[i] as int, order[j] as int));
        } else {
            assert(time_before(times, order[j] as int, order[i] as int));
        }
    }
    assert(o.no_duplicates());
    o.unique_seq_to_set();
    let range = vstd::set_lib::set_int_range(0, n);
    vstd::set_lib::lemma_int_range(0, n);
    assert forall|x: int| o.to_set().contains(x) implies range.contains(x) by {
        let i = choose|i: int| 0 <= i < o.len() && o[i] == x;
        assert(order[i] < n);
    }
    vstd::set_lib::lemma_subset_equality(o.to_set(), range);
    assert(range.contains(k));
    assert(o.to_set().contains(k));
    let i = choose|i: int| 0 <= i < o.len() && o[i] == k;
    assert(order[i] == k);
}

/// The positions of the samples sorted by time, a stable sort: samples at the
/// same time keep their order.
pub fn order_by_time(times: &Vec<i128>) -> (order: Vec<usize>)
    ensures
        is_time_order(times@, order@),
{
    let n = times.len();
    let mut order: Vec<usize> = Vec::new();
    let mut i: usize = 0;
    while i < n
        invariant
            n == times@.len(),
            i <= n,
            order@.len() == i,
            forall|k: int| 0 <= k < order@.len() ==> #[trigger] order@[k] < i,
            forall|a: int, b: int|
                0 <= a < b < order@.len() ==> time_before(times@, #[trigger] order@[a] as int, #[trigger] order@[b] as int),
        decreases n - i,
    {
        let t = times[i];
        let mut p: usize = order.len();
        while p > 0 && times[order[p - 1]] > t
            invariant
                n == times@.len(),
                i < n,
                t == times@[i as int],
                order@.len() == i,
                p <= order@.len(),
                forall|k: int| 0 <= k < order@.len() ==> #[trigger] order@[k] < i,
                forall|k: int| p <= k < order@.len() ==> times@[#[trigger] order@[k] as int] > t,
            decreases p,
        {
            p = p - 1;
        }
        let ghost before = order@;
        proof {
            assert forall|k: int| 0 <= k < p implies times@[#[trigger] before[k] as int] <= t by {
                if k < p - 1 {
                    assert(time_before(times@, before[k] as int, before[p - 1] as int));
                }
            }
        }
        order.insert(p, i);
        proof {
            assert forall|a: int, b: int|
                0 <= a < b < order@.len() implies time_before(times@, #[trigger] order@[a] as int, #[trigger] order@[b] as int) by {
                if b < p {
                    assert(order@[a] == before[a] && order@[b] == before[b]);
                } else if b == p {
                    assert(order@[a] == before[a]);
                } else if a < p {
                    assert(order@[a] == before[a] && order@[b] == before[b - 1]);
                    assert(time_before(times@, before[a] as int, i as int));
                } else if a == p {
                    assert(order@[b] == before[b - 1]);
                } else {
                    assert(order@[a] == before[a - 1] && order@[b] == before[b - 1]);
                }
            }
        }
        i = i + 1;
    }
    order
}

/// Which samples the attitude at a time is taken from.
#[derive(Debug, Clone, Copy, PartialEq, Eq, Structural)]
pub enum Bracket {
    /// At or before the first sample: the first sample's attitude.
    First,
    /// At or after the last sample: the last sample's attitude.
    Last,
    /// Strictly inside the span: interpolate between samples `i` and `i + 1`.
    Between(usize),
}

/// `b` is the bracket of time `t` in the sample times `times`: clamped to the
/// span, else the first pair `(i, i + 1)` scanning from the start whose second
/// time is not before `t`.
pub open spec fn is_bracket(times: Seq<i128>, t: int, b: Bracket) -> bool {
    if t <= times[0] {
        b == Bracket::First
    } else if t >= times.last() {
        b == Bracket::Last
    } else {
        b matches Bracket::Between(i) && {
            &&& i + 1 < times.len()
            &&& times[i + 1] >= t
            &&& forall|j: int| 1 <= j <= i ==> times[j] < t
        }
    }
}

/// Locates time `t` (nanoseconds) among the sample times: clamped to the
/// telemetry span, else the pair of samples to interpolate between, found by a
/// linear scan from the start.
pub fn interpolation_bracket(times: &[i128], t: i128) -> (b: Bracket)
    requires
        times@.len() >= 1,
    ensures
        is_bracket(times@, t as int, b),
{
    let n = times.len();
    if t <= times[0] {
        return Bracket::First;
    }
    if t >= times[n - 1] {
        return Bracket::Last;
    }
    let mut i: usize = 0;
    while i + 1 < n && times[i + 1] < t
        invariant
            n == times@.len(),
            i < n,
            times@[n - 1] > t,
            forall|j: int| 1 <= j <= i ==> times@[j] < t,
        decreases n - i,
    {
        i = i + 1;
    }
    Bracket::Between(i)
}

/// On time-sorted samples, the pair a time falls between surrounds it: the
/// first sample is strictly before it and the second at or after it.
pub proof fn lemma_bracket_surrounds(times: Seq<i128>, t: int, i: usize)
    requires
        times.len() >= 1,
        forall|a: int, b: int| 0 <= a <= b < times.len() ==> times[a] <= times[b],
        is_bracket(times, t, Bracket::Between(i)),
    ensures
        times[i as int] < t <= times[i + 1],
{
    if i == 0 {
        assert(t > times[0]);
    } else {
        assert(times[i as int] < t);
    }
}

} // verus!
