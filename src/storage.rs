use vstd::prelude::*;
use crate::stats::{
    AppUsageStats, AppUsageStatsView, DailyUsage, DayTotal, DayTotalView, day_views, sorted_by_total,
    stats_views, summarize, summary_of,
};

verus! {

#[verifier::external_type_specification]
#[verifier::external_body]
pub struct ExConnection(rusqlite::Connection);

#[verifier::external_type_specification]
#[verifier::external_body]
pub struct ExSqliteError(rusqlite::Error);

/// The text chrono gives for the UTC instant `secs` seconds after the Unix
/// epoch, in RFC 3339 form; `None` where that instant is out of its range.
pub uninterp spec fn rfc3339_text(secs: i64) -> Option<Seq<char>>;

/// The Unix time (seconds) of an RFC 3339 date-and-time text, as chrono reads
/// it; `None` where the text is not RFC 3339.
pub uninterp spec fn rfc3339_seconds(text: Seq<char>) -> Option<i64>;

/// Relies on chrono's `DateTime::<Utc>::from_timestamp` (`None` out of range)
/// and `DateTime::to_rfc3339`: the text depends on `secs` alone.
#[verifier::external_body]
fn utc_rfc3339(secs: i64) -> (r: Option<String>)
    ensures
        match r {
            Some(t) => rfc3339_text(secs) == Some(t@),
            None => rfc3339_text(secs) is None,
        },
{
    chrono::DateTime::from_timestamp(secs, 0).map(|d| d.to_rfc3339())
}

/// Relies on chrono's `DateTime::parse_from_rfc3339` and `DateTime::timestamp`:
/// the result depends on the text alone.
#[verifier::external_body]
fn parse_rfc3339_seconds(text: &str) -> (r: Option<i64>)
    ensures
        r == rfc3339_seconds(text@),
{
    chrono::DateTime::parse_from_rfc3339(text).ok().map(|d| d.timestamp())
}

/// Relies on rusqlite's `Connection::open`, which opens (or creates) the
/// database at `path`.
#[verifier::external_body]
fn open_connection(path: &str) -> (r: Result<rusqlite::Connection, rusqlite::Error>) {
    rusqlite::Connection::open(path)
}

/// Relies on rusqlite's `Connection::execute_batch`, which runs `sql`.
#[verifier::external_body]
fn execute_batch(conn: &rusqlite::Connection, sql: &str) -> (r: Result<(), rusqlite::Error>) {
    conn.execute_batch(sql)
}

/// Relies on rusqlite's `Connection::execute`, which runs `sql` with the three
/// values bound to its parameters in order.
#[verifier::external_body]
fn execute_with(
    conn: &rusqlite::Connection,
    sql: &str,
    text: &str,
    name: &str,
    value: i64,
) -> (r: Result<usize, rusqlite::Error>) {
    conn.execute(sql, (text, name, value))
}

/// Relies on rusqlite's `Connection::prepare`, `Statement::query_map` and
/// `Row::get`: the rows of `sql`, each read as (text, text, integer).
#[verifier::external_body]
fn query_text_text_int(
    conn: &rusqlite::Connection,
    sql: &str,
) -> (r: Result<Vec<(String, String, i64)>, rusqlite::Error>) {
    let mut stmt = conn.prepare(sql)?;
    let rows = stmt.query_map([], |row| Ok((row.get(0)?, row.get(1)?, row.get(2)?)))?;
    rows.collect()
}

pub const CREATE_TABLE_SQL: &'static str = "CREATE TABLE IF NOT EXISTS app_usage (
    id INTEGER PRIMARY KEY,
    timestamp TEXT NOT NULL,
    app_name TEXT NOT NULL,
    duration INTEGER NOT NULL
)";

pub const INSERT_SQL: &'static str = "INSERT INTO app_usage (timestamp, app_name, duration) VALUES (?1, ?2, ?3)";

pub const DAILY_SQL: &'static str = "SELECT app_name, strftime('%Y-%m-%d', timestamp, 'localtime') AS date, SUM(duration) AS daily_duration FROM app_usage WHERE date(timestamp, 'localtime') = date('now', 'localtime') AND datetime(timestamp) <= datetime('now') GROUP BY app_name, date ORDER BY daily_duration DESC";

pub const THREE_DAYS_SQL: &'static str = "SELECT app_name, strftime('%Y-%m-%d', timestamp, 'localtime') AS date, SUM(duration) AS daily_duration FROM app_usage WHERE datetime(timestamp) BETWEEN datetime('now', '-3 days') AND datetime('now') GROUP BY app_name, date ORDER BY daily_duration DESC";

pub const WEEKLY_SQL: &'static str = "SELECT app_name, strftime('%Y-%m-%d', timestamp, 'localtime') AS date, SUM(duration) AS daily_duration FROM app_usage WHERE datetime(timestamp) BETWEEN datetime('now', '-7 days') AND datetime('now') GROUP BY app_name, date ORDER BY daily_duration DESC";

pub const MONTHLY_SQL: &'static str = "SELECT app_name, strftime('%Y-%m-%d', timestamp, 'localtime') AS date, SUM(duration) AS daily_duration FROM app_usage WHERE datetime(timestamp) BETWEEN datetime('now', '-30 days') AND datetime('now') GROUP BY app_name, date ORDER BY daily_duration DESC";

/// What follows a stored calendar date to make it midnight UTC in RFC 3339.
pub const MIDNIGHT_UTC: &'static str = "T00:00:00Z";

/// A failure of the usage store.
#[derive(Debug)]
pub enum StorageError {
    /// The database engine failed.
    Sqlite(rusqlite::Error),
    /// A stored date could not be read as a calendar date.
    MalformedTimestamp(String),
    /// A record's instant lies outside what can be written down.
    InvalidTimestamp(i64),
    /// A duration was negative.
    NegativeDuration(i64),
}

/// A historical window of the usage store.
#[derive(Clone, Copy, Debug, PartialEq, Eq, Structural)]
pub enum UsageRange {
    Daily,
    ThreeDays,
    Weekly,
    Monthly,
}

/// The range a token selects: `"3days"`, `"weekly"` and `"monthly"` name
/// their own; every other token, `"daily"` among them, selects the day.
pub open spec fn range_of_token(token: Seq<char>) -> UsageRange {
    if token == "3days"@ {
        UsageRange::ThreeDays
    } else if token == "weekly"@ {
        UsageRange::Weekly
    } else if token == "monthly"@ {
        UsageRange::Monthly
    } else {
        UsageRange::Daily
    }
}

pub open spec fn query_of(range: UsageRange) -> Seq<char> {
    match range {
        UsageRange::Daily => DAILY_SQL@,
        UsageRange::ThreeDays => THREE_DAYS_SQL@,
        UsageRange::Weekly => WEEKLY_SQL@,
        UsageRange::Monthly => MONTHLY_SQL@,
    }
}

/// A token outside the four known ones behaves exactly as `"daily"`.
pub proof fn lemma_unknown_token_is_daily(token: Seq<char>)
    requires
        token != "daily"@,
        token != "3days"@,
        token != "weekly"@,
        token != "monthly"@,
    ensures
        range_of_token(token) == range_of_token("daily"@),
        query_of(range_of_token(token)) == query_of(range_of_token("daily"@)),
{
    reveal_strlit("daily");
    reveal_strlit("3days");
    reveal_strlit("weekly");
    reveal_strlit("monthly");
    assert("daily"@[0] != "3days"@[0]);
    assert("daily"@[0] != "weekly"@[0]);
    assert("daily"@[0] != "monthly"@[0]);
}

impl UsageRange {
    pub fn from_token(token: &str) -> (r: UsageRange)
        ensures
            r == range_of_token(token@),
    {
        let t = token.to_owned();
        if t == "3days".to_owned() {
            UsageRange::ThreeDays
        } else if t == "weekly".to_owned() {
            UsageRange::Weekly
        } else if t == "monthly".to_owned() {
            UsageRange::Monthly
        } else {
            UsageRange::Daily
        }
    }

    /// The query that selects this range's day totals.
    pub fn query(self) -> (r: &'static str)
        ensures
            r@ == query_of(self),
    {
        match self {
            UsageRange::Daily => DAILY_SQL,
            UsageRange::ThreeDays => THREE_DAYS_SQL,
            UsageRange::Weekly => WEEKLY_SQL,
            UsageRange::Monthly => MONTHLY_SQL,
        }
    }
}

/// One discrete span of active time of one application: when it was
/// recorded (Unix seconds, UTC) and how many seconds it lasted.
#[derive(Debug)]
pub struct AppUsageRecord {
    pub timestamp: i64,
    pub app_name: String,
    pub duration: i64,
}

/// A stored row as the range queries return it: the application, the
/// calendar date (`YYYY-MM-DD`) and the seconds summed over that date.
pub type DayRow = (String, String, i64);

/// The row that stores a record: the RFC 3339 text of its instant, the
/// application name and the duration, in the order of `INSERT_SQL`'s
/// parameters.
pub type UsageRow = (String, String, i64);

/// Builds the row that stores `record`, or refuses the record: a negative
/// duration first, then an instant that cannot be written down.
pub fn usage_row(record: &AppUsageRecord) -> (r: Result<UsageRow, StorageError>)
    ensures
        record.duration < 0 ==> r == Err::<UsageRow, StorageError>(StorageError::NegativeDuration(record.duration)),
        record.duration >= 0 && rfc3339_text(record.timestamp) is None ==> r == Err::<UsageRow, StorageError>(
            StorageError::InvalidTimestamp(record.timestamp),
        ),
        record.duration >= 0 && rfc3339_text(record.timestamp) is Some ==> (r matches Ok(row) && Some(row.0@)
            == rfc3339_text(record.timestamp) && row.1@ == record.app_name@ && row.2 == record.duration),
{
    if record.duration < 0 {
        return Err(StorageError::NegativeDuration(record.duration));
    }
    match utc_rfc3339(record.timestamp) {
        None => Err(StorageError::InvalidTimestamp(record.timestamp)),
        Some(text) => Ok((text, record.app_name.clone(), record.duration)),
    }
}

/// Whether a row can be read: its duration is not negative and its date
/// reads as midnight UTC of a calendar day.
pub open spec fn row_accepted(row: DayRow) -> bool {
    row.2 >= 0 && rfc3339_seconds(row.1@ + MIDNIGHT_UTC@) is Some
}

pub open spec fn day_of_row(row: DayRow) -> DayTotalView {
    DayTotalView {
        app_name: row.0@,
        date: rfc3339_seconds(row.1@ + MIDNIGHT_UTC@)->0,
        duration: row.2 as u64,
    }
}

pub open spec fn days_of_rows(rows: Seq<DayRow>) -> Seq<DayTotalView> {
    rows.map_values(|row: DayRow| day_of_row(row))
}

/// A readable row of an application that no other row names comes back as
/// that application's only entry, with the row's date and duration as its
/// one day and its total.
pub proof fn lemma_lone_row_round_trip(rows: Seq<DayRow>, k: int)
    requires
        0 <= k < rows.len(),
        row_accepted(rows[k]),
        forall|m: int| 0 <= m < rows.len() && m != k ==> rows[m].0@ != rows[k].0@,
    ensures
        ({
            let e = AppUsageStatsView {
                name: rows[k].0@,
                total_time: rows[k].2 as u64,
                daily_usage: seq![
                    DailyUsage { date: rfc3339_seconds(rows[k].1@ + MIDNIGHT_UTC@)->0, duration: rows[k].2 as u64 },
                ],
            };
            let s = summary_of(days_of_rows(rows));
            &&& s.contains(e)
            &&& forall|i: int| 0 <= i < s.len() && (#[trigger] s[i]).name == e.name ==> s[i] == e
        }),
{
    let d = days_of_rows(rows);
    assert forall|m: int| 0 <= m < d.len() && m != k implies d[m].app_name != d[k].app_name by {
        assert(d[m] == day_of_row(rows[m]));
    }
    crate::stats::lemma_lone_day_summarized(d, k);
}

/// The error by which an unreadable row is reported.
pub open spec fn rejects(row: DayRow, e: StorageError) -> bool {
    if row.2 < 0 {
        e == StorageError::NegativeDuration(row.2)
    } else {
        e matches StorageError::MalformedTimestamp(t) && t@ == row.1@
    }
}

pub open spec fn rows_read(rows: Seq<DayRow>, r: Result<Seq<DayTotalView>, StorageError>) -> bool {
    match r {
        Ok(v) => {
            &&& forall|i: int| 0 <= i < rows.len() ==> row_accepted(#[trigger] rows[i])
            &&& v == days_of_rows(rows)
        },
        Err(e) => exists|i: int|
            0 <= i < rows.len() && (forall|k: int| 0 <= k < i ==> row_accepted(#[trigger] rows[k]))
                && !row_accepted(#[trigger] rows[i]) && rejects(rows[i], e),
    }
}

/// Reads the rows of a range query into day totals; the first unreadable
/// row, if any, decides the error.
pub fn day_totals(rows: &Vec<DayRow>) -> (r: Result<Vec<DayTotal>, StorageError>)
    ensures
        rows_read(
            rows@,
            match r {
                Ok(v) => Ok(day_views(v@)),
                Err(e) => Err(e),
            },
        ),
{
    let mut out: Vec<DayTotal> = Vec::new();
    let mut i: usize = 0;
    while i < rows.len()
        invariant
            i <= rows.len(),
            forall|k: int| 0 <= k < i ==> row_accepted(#[trigger] rows@[k]),
            out@.len() == i,
            day_views(out@) == days_of_rows(rows@.take(i as int)),
        decreases rows.len() - i,
    {
        let duration = rows[i].2;
        if duration < 0 {
            return Err(StorageError::NegativeDuration(duration));
        }
        let mut text = rows[i].1.clone();
        text.append(MIDNIGHT_UTC);
        match parse_rfc3339_seconds(text.as_str()) {
            None => {
                return Err(StorageError::MalformedTimestamp(rows[i].1.clone()));
            },
            Some(date) => {
                let d = DayTotal { app_name: rows[i].0.clone(), date, duration: duration as u64 };
                let ghost before = out@;
                out.push(d);
                proof {
                    assert(d@ == day_of_row(rows@[i as int]));
                    assert(rows@.take(i + 1) =~= rows@.take(i as int).push(rows@[i as int]));
                    assert forall|k: int| 0 <= k < i + 1 implies #[trigger] day_views(out@)[k] == days_of_rows(rows@.take(i + 1))[k] by {
                        if k < i {
                            assert(day_views(before)[k] == days_of_rows(rows@.take(i as int))[k]);
                        }
                    }
                    assert(day_views(out@) =~= days_of_rows(rows@.take(i + 1)));
                }
            },
        }
        i = i + 1;
    }
    assert(rows@.take(i as int) =~= rows@);
    Ok(out)
}

/// The statistics of the rows of a range query: the rows read as day totals,
/// then grouped and ordered as `summarize` does.
pub fn usage_stats_from_rows(rows: &Vec<DayRow>) -> (r: Result<Vec<AppUsageStats>, StorageError>)
    ensures
        match r {
            Ok(v) => {
                &&& rows_read(rows@, Ok(days_of_rows(rows@)))
                &&& stats_views(v@) == summary_of(days_of_rows(rows@))
            },
            Err(e) => rows_read(rows@, Err(e)),
        },
{
    match day_totals(rows) {
        Ok(days) => Ok(summarize(&days)),
        Err(e) => Err(e),
    }
}

/// The durable usage log, held open for the life of the process.
pub struct Storage {
    conn: rusqlite::Connection,
}

impl Storage {
    /// Opens (creating if needed) the database at `db_path` and makes sure
    /// the usage table exists.
    pub fn new(db_path: &str) -> (r: Result<Storage, StorageError>)
        ensures
            r matches Err(e) ==> e is Sqlite,
    {
        match open_connection(db_path) {
            Err(e) => Err(StorageError::Sqlite(e)),
            Ok(conn) => match execute_batch(&conn, CREATE_TABLE_SQL) {
                Err(e) => Err(StorageError::Sqlite(e)),
                Ok(()) => Ok(Storage { conn }),
            },
        }
    }

    /// Appends one record: the row that `usage_row` builds, handed to the
    /// engine with `INSERT_SQL`. A negative duration, or an instant that
    /// cannot be written down, is refused before anything is written.
    pub fn record_usage(&self, record: AppUsageRecord) -> (r: Result<(), StorageError>)
        ensures
            record.duration < 0 ==> r == Err::<(), StorageError>(StorageError::NegativeDuration(record.duration)),
            record.duration >= 0 && rfc3339_text(record.timestamp) is None ==> r == Err::<(), StorageError>(
                StorageError::InvalidTimestamp(record.timestamp),
            ),
            record.duration >= 0 && rfc3339_text(record.timestamp) is Some ==> (r is Ok || (r matches Err(
                e,
            ) && e is Sqlite)),
    {
        match usage_row(&record) {
            Err(e) => Err(e),
            Ok(row) => match execute_with(&self.conn, INSERT_SQL, row.0.as_str(), row.1.as_str(), row.2) {
                Ok(_) => Ok(()),
                Err(e) => Err(StorageError::Sqlite(e)),
            },
        }
    }

    /// The statistics of the range that `range` names (any other token
    /// selects the day): one entry per application with its days, ordered by
    /// total time, largest first.
    pub fn get_usage_stats(&self, range: &str) -> (r: Result<Vec<AppUsageStats>, StorageError>)
        ensures
            r matches Ok(v) ==> (exists|rows: Seq<DayRow>|
                rows_read(rows, Ok(days_of_rows(rows))) && stats_views(v@) == summary_of(
                    #[trigger] days_of_rows(rows),
                )),
            r matches Ok(v) ==> sorted_by_total(stats_views(v@)),
            r matches Err(e) ==> (e is Sqlite || exists|rows: Seq<DayRow>| #[trigger] rows_read(rows, Err(e))),
    {
        let sql = UsageRange::from_token(range).query();
        match query_text_text_int(&self.conn, sql) {
            Err(e) => Err(StorageError::Sqlite(e)),
            Ok(rows) => {
                let r = usage_stats_from_rows(&rows);
                proof {
                    if r is Ok {
                        crate::stats::lemma_sort_by_total_orders(
                            crate::stats::group_by_app(days_of_rows(rows@)),
                        );
                    }
                }
                r
            },
        }
    }
}

} // verus!
