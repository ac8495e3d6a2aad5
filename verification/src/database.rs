//! Local database records, schema migration rules and the event queries'
//! SQL, as plain values. Opening the database and running statements is
//! the application's part.

use vstd::prelude::*;
use crate::text::{decimal, decimal_string, join, join_spec, push_str, string_views, to_owned_string};

verus! {

/// Current schema version of the database.
pub const CURRENT_SCHEMA_VERSION: i64 = 1;

/// File name of the database inside the configuration directory.
pub const DB_FILE_NAME: &'static str = "starforge.db";

/// `dir` joined with `name` as a relative path component (a separator is
/// added unless `dir` is empty or already ends with one).
pub open spec fn join_path(dir: Seq<char>, name: Seq<char>) -> Seq<char> {
    if dir.len() == 0 {
        name
    } else if dir.last() == '/' {
        dir + name
    } else {
        dir + "/"@ + name
    }
}

/// `dir` joined with the relative component `name`.
pub fn path_join(dir: &str, name: &str) -> (r: String)
    ensures
        r@ == join_path(dir@, name@),
{
    let mut r = to_owned_string(dir);
    let n = dir.unicode_len();
    if n > 0 {
        let last = dir.get_char(n - 1);
        if last != '/' {
            push_str(&mut r, "/");
        }
    }
    push_str(&mut r, name);
    r
}

/// Path of the database inside the configuration directory.
pub fn db_path(config_dir: &str) -> (r: String)
    ensures
        r@ == join_path(config_dir@, DB_FILE_NAME@),
{
    path_join(config_dir, DB_FILE_NAME)
}

/// A migration recorded as applied.
#[derive(Debug, Clone, PartialEq, Eq)]
pub struct AppliedMigration {
    pub version: i64,
    pub name: String,
    pub applied_at: String,
    pub checksum: String,
}

/// Result of running migrations.
#[derive(Debug, Clone, PartialEq, Eq)]
pub struct MigrationResult {
    pub current_version: i64,
    pub migrations_applied: Vec<i64>,
    pub migrations_rolled_back: Vec<i64>,
}

/// Why a migration operation failed.
#[derive(Debug, Clone, PartialEq, Eq)]
pub enum MigrationError {
    AlreadyApplied(i64),
    NotFound(i64),
    NothingToRollback,
    MissingDependency(i64, i64),
    InvalidSequence,
    UnsupportedVersion(i64, i64, i64),
    MigrationFailed(String),
    DatabaseCorrupted { path: String, issues: String },
}

/// Decimal text of an integer, with a leading minus when negative.
pub open spec fn signed_decimal(n: int) -> Seq<char> {
    if n < 0 {
        "-"@ + decimal((-n) as nat)
    } else {
        decimal(n as nat)
    }
}

/// Decimal text of an `i64`.
fn signed_string(n: i64) -> (r: String)
    ensures
        r@ == signed_decimal(n as int),
{
    if n < 0 {
        let m: u64 = if n == i64::MIN {
            9_223_372_036_854_775_808u64
        } else {
            (-n) as u64
        };
        let mut s = to_owned_string("-");
        push_str(&mut s, decimal_string(m).as_str());
        s
    } else {
        decimal_string(n as u64)
    }
}

/// The message of a migration error.
pub open spec fn migration_error_message(e: MigrationError) -> Seq<char> {
    match e {
        MigrationError::AlreadyApplied(v) => "Migration version "@ + signed_decimal(v as int) + " is already applied"@,
        MigrationError::NotFound(v) => "Migration version "@ + signed_decimal(v as int) + " not found"@,
        MigrationError::NothingToRollback => "Cannot rollback: no migrations applied"@,
        MigrationError::MissingDependency(v, d) => "Migration version "@ + signed_decimal(v as int)
            + " depends on unapplied version "@ + signed_decimal(d as int),
        MigrationError::InvalidSequence => "Invalid migration sequence: versions must be consecutive"@,
        MigrationError::UnsupportedVersion(v, lo, hi) => "Database schema version "@ + signed_decimal(v as int)
            + " is not supported (minimum: "@ + signed_decimal(lo as int) + ", maximum: "@ + signed_decimal(
            hi as int,
        ) + ")"@,
        MigrationError::MigrationFailed(m) => "Migration failed: "@ + m@,
        MigrationError::DatabaseCorrupted { path, issues } => "Database at "@ + path@ + " is corrupted: "@
            + issues@
            + ". Restore from a backup with `starforge config db restore <backup-file>`, or move the corrupted file aside to start a fresh database."@,
    }
}

impl MigrationError {
    /// The error's message.
    pub fn message(&self) -> (r: String)
        ensures
            r@ == migration_error_message(*self),
    {
        match self {
            MigrationError::AlreadyApplied(v) => {
                let mut s = to_owned_string("Migration version ");
                push_str(&mut s, signed_string(*v).as_str());
                push_str(&mut s, " is already applied");
                s
            },
            MigrationError::NotFound(v) => {
                let mut s = to_owned_string("Migration version ");
                push_str(&mut s, signed_string(*v).as_str());
                push_str(&mut s, " not found");
                s
            },
            MigrationError::NothingToRollback => to_owned_string("Cannot rollback: no migrations applied"),
            MigrationError::MissingDependency(v, d) => {
                let mut s = to_owned_string("Migration version ");
                push_str(&mut s, signed_string(*v).as_str());
                push_str(&mut s, " depends on unapplied version ");
                push_str(&mut s, signed_string(*d).as_str());
                s
            },
            MigrationError::InvalidSequence => to_owned_string(
                "Invalid migration sequence: versions must be consecutive",
            ),
            MigrationError::UnsupportedVersion(v, lo, hi) => {
                let mut s = to_owned_string("Database schema version ");
                push_str(&mut s, signed_string(*v).as_str());
                push_str(&mut s, " is not supported (minimum: ");
                push_str(&mut s, signed_string(*lo).as_str());
                push_str(&mut s, ", maximum: ");
                push_str(&mut s, signed_string(*hi).as_str());
                push_str(&mut s, ")");
                s
            },
            MigrationError::MigrationFailed(m) => {
                let mut s = to_owned_string("Migration failed: ");
                push_str(&mut s, m.as_str());
                s
            },
            MigrationError::DatabaseCorrupted { path, issues } => {
                let mut s = to_owned_string("Database at ");
                push_str(&mut s, path.as_str());
                push_str(&mut s, " is corrupted: ");
                push_str(&mut s, issues.as_str());
                push_str(
                    &mut s,
                    ". Restore from a backup with `starforge config db restore <backup-file>`, or move the corrupted file aside to start a fresh database.",
                );
                s
            },
        }
    }
}

/// Largest of the applied versions.
pub open spec fn max_version(v: Seq<i64>) -> int
    decreases v.len(),
{
    if v.len() == 0 {
        0
    } else if v.len() == 1 {
        v[0] as int
    } else {
        let rest = max_version(v.drop_last());
        if v.last() > rest {
            v.last() as int
        } else {
            rest
        }
    }
}

/// Why a rollback is refused, or the schema version it leaves behind.
pub open spec fn rollback_spec(applied: Seq<i64>, version: int) -> Result<int, Seq<char>> {
    if applied.len() == 0 {
        Err("No migrations applied"@)
    } else if version < max_version(applied) {
        Err("Can only rollback the latest migration ("@ + signed_decimal(max_version(applied))
            + "), tried to rollback "@ + signed_decimal(version))
    } else if !applied.contains(version as i64) {
        Err("Migration version "@ + signed_decimal(version) + " is not applied"@)
    } else {
        Ok(if version > 1 {
            version - 1
        } else {
            0
        })
    }
}

/// Checks a rollback of `version` against the applied versions: only the
/// newest applied migration can be rolled back. Returns the schema version
/// that remains afterwards.
pub fn rollback_target(applied: &Vec<i64>, version: i64) -> (r: Result<i64, String>)
    ensures
        match rollback_spec(applied@, version as int) {
            Ok(v) => r == Ok::<i64, String>(v as i64),
            Err(m) => r matches Err(e) && e@ == m,
        },
{
    if applied.len() == 0 {
        return Err(to_owned_string("No migrations applied"));
    }
    let mut max: i64 = applied[0];
    let mut found = false;
    let mut i: usize = 0;
    while i < applied.len()
        invariant
            1 <= applied@.len(),
            i <= applied@.len(),
            i >= 1 ==> max == max_version(applied@.take(i as int)),
            i == 0 ==> max == applied@[0],
            found == applied@.take(i as int).contains(version),
        decreases applied@.len() - i,
    {
        let ghost t = applied@.take(i + 1);
        assert(t.drop_last() =~= applied@.take(i as int));
        if i == 0 {
            assert(t =~= seq![applied@[0]]);
        } else if applied[i] > max {
            max = applied[i];
        }
        if applied[i] == version {
            found = true;
            assert(t[i as int] == version);
        } else {
            proof {
                if found {
                    let q = choose|q: int| 0 <= q < i && applied@.take(i as int)[q] == version;
                    assert(t[q] == version);
                } else {
                    assert forall|q: int| 0 <= q < i + 1 implies #[trigger] t[q] != version by {
                        if q < i {
                            assert(t[q] == applied@.take(i as int)[q]);
                        }
                    }
                }
            }
        }
        i += 1;
    }
    assert(applied@.take(i as int) =~= applied@);
    if version < max {
        let mut m = to_owned_string("Can only rollback the latest migration (");
        push_str(&mut m, signed_string(max).as_str());
        push_str(&mut m, "), tried to rollback ");
        push_str(&mut m, signed_string(version).as_str());
        return Err(m);
    }
    if !found {
        let mut m = to_owned_string("Migration version ");
        push_str(&mut m, signed_string(version).as_str());
        push_str(&mut m, " is not applied");
        return Err(m);
    }
    Ok(if version > 1 { version - 1 } else { 0 })
}

/// A wallet as stored.
#[derive(Debug, Clone, PartialEq, Eq)]
pub struct WalletRow {
    pub name: String,
    pub public_key: String,
    pub secret_key: Option<String>,
    pub network: String,
    pub created_at: String,
    pub funded: bool,
    pub rotation_history: String,
}

/// A network as stored.
#[derive(Debug, Clone, PartialEq, Eq)]
pub struct NetworkRow {
    pub name: String,
    pub horizon_url: String,
    pub soroban_rpc_url: Option<String>,
    pub friendbot_url: Option<String>,
    pub passphrase: Option<String>,
}

/// Rows and columns of an ad-hoc query.
#[derive(Debug, Clone, PartialEq, Eq)]
pub struct QueryResult {
    pub columns: Vec<String>,
    pub rows: Vec<Vec<String>>,
    pub rows_affected: usize,
}

/// Database statistics.
#[derive(Debug, Clone, PartialEq, Eq)]
pub struct DbStats {
    pub wallets: usize,
    pub networks: usize,
    pub config_entries: usize,
    pub events: usize,
    pub schema_version: String,
    pub db_size_bytes: u64,
    pub applied_migrations: usize,
}

/// What a migration from the TOML configuration moved.
#[derive(Debug, Clone, Copy, PartialEq, Eq, Structural)]
pub struct MigrationReport {
    pub wallets_migrated: usize,
    pub networks_migrated: usize,
    pub config_keys_migrated: usize,
}

/// An event as stored.
#[derive(Debug, Clone, PartialEq, Eq)]
pub struct EventRow {
    pub id: String,
    pub event_type: String,
    pub contract_id: String,
    pub ledger: u32,
    pub topics: Option<String>,
    pub value: String,
    pub timestamp: String,
    pub network: String,
}

/// Filters of an event search; unset filters match everything.
#[derive(Debug, Clone, PartialEq, Eq)]
pub struct EventSearchFilters {
    pub contract_id: Option<String>,
    pub event_type: Option<String>,
    pub min_ledger: Option<u32>,
    pub max_ledger: Option<u32>,
    pub start_time: Option<String>,
    pub end_time: Option<String>,
    pub network: Option<String>,
    pub limit: Option<usize>,
    pub offset: Option<usize>,
}

/// Time bucket of an event aggregation.
#[derive(Debug, Clone, Copy, PartialEq, Eq, Structural)]
pub enum AggregationBucket {
    Hour,
    Day,
    Week,
    Month,
}

/// Events counted per bucket.
#[derive(Debug, Clone, PartialEq, Eq)]
pub struct EventAggregation {
    pub bucket: String,
    pub count: i64,
}

/// Export format of events.
#[derive(Debug, Clone, Copy, PartialEq, Eq, Structural)]
pub enum ExportFormat {
    Json,
    Csv,
}

/// One optional filter as a condition and its parameter.
pub open spec fn filter_part(cond: Seq<char>, value: Option<Seq<char>>) -> (Seq<Seq<char>>, Seq<Seq<char>>) {
    match value {
        Some(v) => (seq![cond], seq![v]),
        None => (Seq::empty(), Seq::empty()),
    }
}

/// The optional text of a filter.
pub open spec fn opt_text(o: Option<String>) -> Option<Seq<char>> {
    match o {
        Some(s) => Some(s@),
        None => None,
    }
}

/// The optional decimal text of a ledger filter.
pub open spec fn opt_ledger(o: Option<u32>) -> Option<Seq<char>> {
    match o {
        Some(n) => Some(decimal(n as nat)),
        None => None,
    }
}

/// The SQL conditions and parameters of the filters, in a fixed order after
/// the always-true `1=1`.
pub open spec fn filter_spec(f: EventSearchFilters) -> (Seq<Seq<char>>, Seq<Seq<char>>) {
    let parts = seq![
        filter_part("contract_id = ?"@, opt_text(f.contract_id)),
        filter_part("event_type = ?"@, opt_text(f.event_type)),
        filter_part("ledger >= ?"@, opt_ledger(f.min_ledger)),
        filter_part("ledger <= ?"@, opt_ledger(f.max_ledger)),
        filter_part("timestamp >= ?"@, opt_text(f.start_time)),
        filter_part("timestamp <= ?"@, opt_text(f.end_time)),
        filter_part("network = ?"@, opt_text(f.network)),
    ];
    (
        seq!["1=1"@] + parts[0].0 + parts[1].0 + parts[2].0 + parts[3].0 + parts[4].0 + parts[5].0 + parts[6].0,
        parts[0].1 + parts[1].1 + parts[2].1 + parts[3].1 + parts[4].1 + parts[5].1 + parts[6].1,
    )
}

/// Adds a condition and its parameter when the filter is set.
fn add_filter(conds: &mut Vec<String>, params: &mut Vec<String>, cond: &str, value: Option<String>)
    ensures
        string_views(final(conds)@) == string_views(old(conds)@) + filter_part(cond@, opt_text(value)).0,
        string_views(final(params)@) == string_views(old(params)@) + filter_part(cond@, opt_text(value)).1,
{
    match value {
        Some(v) => {
            let ghost c0 = conds@;
            let ghost p0 = params@;
            let c = to_owned_string(cond);
            conds.push(c);
            params.push(v);
            proof {
                crate::text::lemma_string_views_push(c0, c);
                crate::text::lemma_string_views_push(p0, v);
            }
        },
        None => {
            assert(string_views(conds@) =~= string_views(conds@) + Seq::<Seq<char>>::empty());
            assert(string_views(params@) =~= string_views(params@) + Seq::<Seq<char>>::empty());
        },
    }
}

/// A ledger filter as text.
fn ledger_text(o: Option<u32>) -> (r: Option<String>)
    ensures
        opt_text(r) == opt_ledger(o),
{
    match o {
        Some(n) => Some(decimal_string(n as u64)),
        None => None,
    }
}

/// The SQL conditions and parameters of an event search.
pub fn event_filter(f: &EventSearchFilters) -> (r: (Vec<String>, Vec<String>))
    ensures
        (string_views(r.0@), string_views(r.1@)) == filter_spec(*f),
{
    let mut conds: Vec<String> = Vec::new();
    let mut params: Vec<String> = Vec::new();
    let ghost c0 = conds@;
    let t = to_owned_string("1=1");
    conds.push(t);
    proof {
        crate::text::lemma_string_views_push(c0, t);
        assert(string_views(params@) =~= Seq::<Seq<char>>::empty());
    }
    add_filter(&mut conds, &mut params, "contract_id = ?", f.contract_id.clone());
    add_filter(&mut conds, &mut params, "event_type = ?", f.event_type.clone());
    add_filter(&mut conds, &mut params, "ledger >= ?", ledger_text(f.min_ledger));
    add_filter(&mut conds, &mut params, "ledger <= ?", ledger_text(f.max_ledger));
    add_filter(&mut conds, &mut params, "timestamp >= ?", f.start_time.clone());
    add_filter(&mut conds, &mut params, "timestamp <= ?", f.end_time.clone());
    add_filter(&mut conds, &mut params, "network = ?", f.network.clone());
    assert(string_views(conds@) =~= filter_spec(*f).0);
    assert(string_views(params@) =~= filter_spec(*f).1);
    (conds, params)
}

/// The SQL of an event search and its parameters: newest first, 100 rows
/// from offset 0 unless the filters say otherwise.
pub open spec fn search_sql_spec(f: EventSearchFilters) -> Seq<char> {
    "SELECT id, event_type, contract_id, ledger, topics, value, timestamp, network FROM events WHERE "@
        + join_spec(filter_spec(f).0, " AND "@) + " ORDER BY timestamp DESC LIMIT "@ + decimal(
        match f.limit {
            Some(l) => l as nat,
            None => 100,
        },
    ) + " OFFSET "@ + decimal(
        match f.offset {
            Some(o) => o as nat,
            None => 0,
        },
    )
}

/// The SQL of an event search and its parameters.
pub fn search_sql(f: &EventSearchFilters) -> (r: (String, Vec<String>))
    ensures
        r.0@ == search_sql_spec(*f),
        string_views(r.1@) == filter_spec(*f).1,
{
    let (conds, params) = event_filter(f);
    let mut sql = to_owned_string(
        "SELECT id, event_type, contract_id, ledger, topics, value, timestamp, network FROM events WHERE ",
    );
    push_str(&mut sql, join(&conds, " AND ").as_str());
    push_str(&mut sql, " ORDER BY timestamp DESC LIMIT ");
    let limit: u64 = match f.limit {
        Some(l) => l as u64,
        None => 100,
    };
    let offset: u64 = match f.offset {
        Some(o) => o as u64,
        None => 0,
    };
    push_str(&mut sql, decimal_string(limit).as_str());
    push_str(&mut sql, " OFFSET ");
    push_str(&mut sql, decimal_string(offset).as_str());
    (sql, params)
}

/// The bucket column of an aggregation.
pub open spec fn bucket_sql_spec(b: AggregationBucket) -> Seq<char> {
    match b {
        AggregationBucket::Hour => "strftime('%Y-%m-%d %H:00:00', timestamp) AS bucket"@,
        AggregationBucket::Day => "strftime('%Y-%m-%d', timestamp) AS bucket"@,
        AggregationBucket::Week => "strftime('%Y-%W', timestamp) AS bucket"@,
        AggregationBucket::Month => "strftime('%Y-%m', timestamp) AS bucket"@,
    }
}

/// The SQL of an event aggregation: events of the filters counted per
/// bucket, newest bucket first.
pub open spec fn aggregate_sql_spec(b: AggregationBucket, f: EventSearchFilters) -> Seq<char> {
    "SELECT "@ + bucket_sql_spec(b) + ", COUNT(*) AS count FROM events WHERE "@ + join_spec(
        filter_spec(f).0,
        " AND "@,
    ) + " GROUP BY bucket ORDER BY bucket DESC"@
}

/// The SQL of an event aggregation and its parameters.
pub fn aggregate_sql(b: AggregationBucket, f: &EventSearchFilters) -> (r: (String, Vec<String>))
    ensures
        r.0@ == aggregate_sql_spec(b, *f),
        string_views(r.1@) == filter_spec(*f).1,
{
    let (conds, params) = event_filter(f);
    let bucket = match b {
        AggregationBucket::Hour => "strftime('%Y-%m-%d %H:00:00', timestamp) AS bucket",
        AggregationBucket::Day => "strftime('%Y-%m-%d', timestamp) AS bucket",
        AggregationBucket::Week => "strftime('%Y-%W', timestamp) AS bucket",
        AggregationBucket::Month => "strftime('%Y-%m', timestamp) AS bucket",
    };
    let mut sql = to_owned_string("SELECT ");
    push_str(&mut sql, bucket);
    push_str(&mut sql, ", COUNT(*) AS count FROM events WHERE ");
    push_str(&mut sql, join(&conds, " AND ").as_str());
    push_str(&mut sql, " GROUP BY bucket ORDER BY bucket DESC");
    (sql, params)
}

} // verus!
