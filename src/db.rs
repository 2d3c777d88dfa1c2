//! The rate cache, over one SQLite connection.
use vstd::prelude::*;
use crate::amount::Amount;
use crate::currency::Currency;
use crate::rate::{Rate, RateView, fresh_of, parity_view, partition_by_expiry, rate_views, stale_of};
use crate::table::{lemma_delete_keeps_table, lemma_upsert_keeps_table, table_ok, upserted, without_pair};

verus! {

#[verifier::external_type_specification]
#[verifier::external_body]
pub struct ExConnection(rusqlite::Connection);

#[verifier::external_type_specification]
#[verifier::external_body]
pub struct ExSqlError(rusqlite::Error);

/// Why a cache operation failed.
#[derive(Clone, Copy, Debug, PartialEq, Eq, Structural)]
pub enum CacheError {
    /// The store could not be read or written, or held a row that is no rate.
    Storage,
    /// The rate cannot be stored: it has no expiry, or its scale does not fit a column.
    InvalidRate,
}

/// A value bound to a statement parameter.
#[derive(Debug, PartialEq)]
pub enum SqlArg {
    Int(i64),
    Text(String),
}

pub enum SqlArgView {
    Int(i64),
    Text(Seq<char>),
}

impl View for SqlArg {
    type V = SqlArgView;

    open spec fn view(&self) -> SqlArgView {
        match self {
            SqlArg::Int(i) => SqlArgView::Int(*i),
            SqlArg::Text(t) => SqlArgView::Text(t@),
        }
    }
}

pub open spec fn arg_views(args: Seq<SqlArg>) -> Seq<SqlArgView> {
    args.map_values(|a: SqlArg| a@)
}

/// A row of the `rates` table, column by column.
pub struct StoredRow {
    pub src: String,
    pub dst: String,
    pub date: i64,
    pub units: i64,
    pub scale: i64,
    pub provider: String,
    pub cache_until: Option<i64>,
}

pub struct StoredRowView {
    pub src: Seq<char>,
    pub dst: Seq<char>,
    pub date: i64,
    pub units: i64,
    pub scale: i64,
    pub provider: Seq<char>,
    pub cache_until: Option<i64>,
}

impl View for StoredRow {
    type V = StoredRowView;

    open spec fn view(&self) -> StoredRowView {
        StoredRowView {
            src: self.src@,
            dst: self.dst@,
            date: self.date,
            units: self.units,
            scale: self.scale,
            provider: self.provider@,
            cache_until: self.cache_until,
        }
    }
}

pub open spec fn row_views(rows: Seq<StoredRow>) -> Seq<StoredRowView> {
    rows.map_values(|w: StoredRow| w@)
}

/// A row holds a rate when its scale is a possible scale.
pub open spec fn row_is_valid(w: StoredRowView) -> bool {
    0 <= w.scale <= usize::MAX
}

pub open spec fn rate_of_row(w: StoredRowView) -> RateView {
    RateView {
        src: w.src,
        dst: w.dst,
        date: w.date,
        rate: Amount { units: w.units, scale: w.scale as usize },
        provider: w.provider,
        cache_until: w.cache_until,
    }
}

pub open spec fn rates_of_rows(ws: Seq<StoredRowView>) -> Seq<RateView> {
    ws.map_values(|w: StoredRowView| rate_of_row(w))
}

pub open spec fn row_of_rate(r: RateView) -> StoredRowView {
    StoredRowView {
        src: r.src,
        dst: r.dst,
        date: r.date,
        units: r.rate.units,
        scale: r.rate.scale as i64,
        provider: r.provider,
        cache_until: r.cache_until,
    }
}

/// A rate can be stored when it has an expiry and its scale fits a column.
pub open spec fn is_storable(r: RateView) -> bool {
    r.cache_until is Some && r.rate.scale <= i64::MAX
}

/// The parameters of the upsert: the columns of the rate's row, in order.
pub open spec fn upsert_args(r: RateView) -> Seq<SqlArgView> {
    seq![
        SqlArgView::Text(r.src),
        SqlArgView::Text(r.dst),
        SqlArgView::Int(r.date),
        SqlArgView::Int(r.rate.units),
        SqlArgView::Int(r.rate.scale as i64),
        SqlArgView::Text(r.provider),
        SqlArgView::Int(r.cache_until.unwrap()),
    ]
}

/// A rate written as a row reads back as the same rate.
pub proof fn lemma_row_round_trip(r: RateView)
    requires
        r.rate.scale <= i64::MAX,
    ensures
        row_is_valid(row_of_rate(r)),
        rate_of_row(row_of_rate(r)) == r,
{
}

/// `fresh` and `stale` are what `rows`, each holding a rate, give when split
/// by freshness at `now`.
pub open spec fn read_back(rows: Seq<StoredRowView>, now: i64, fresh: Seq<RateView>, stale: Seq<RateView>) -> bool {
    &&& forall|k: int| 0 <= k < rows.len() ==> row_is_valid(#[trigger] rows[k])
    &&& fresh == fresh_of(rates_of_rows(rows), now)
    &&& stale == stale_of(rates_of_rows(rows), now)
}

pub const SCHEMA: &'static str = "CREATE TABLE IF NOT EXISTS rates (src TEXT NOT NULL, dst TEXT NOT NULL, date INTEGER NOT NULL, rate_units INTEGER NOT NULL, rate_scale INTEGER NOT NULL, provider TEXT NOT NULL, cache_until INTEGER, PRIMARY KEY (src, dst, provider));";

pub const SELECT_RATES: &'static str = "SELECT src, dst, date, rate_units, rate_scale, provider, cache_until FROM rates WHERE src = ?1 AND dst = ?2 AND provider = ?3";

pub const UPSERT_RATE: &'static str = "INSERT OR REPLACE INTO rates (src, dst, date, rate_units, rate_scale, provider, cache_until) VALUES (?1, ?2, ?3, ?4, ?5, ?6, ?7)";

pub const DELETE_RATES: &'static str = "DELETE FROM rates WHERE src = ?1 AND dst = ?2";

/// Relies on rusqlite::Connection::open_in_memory, which opens a private, empty database.
#[verifier::external_body]
fn open_in_memory() -> (r: Result<rusqlite::Connection, rusqlite::Error>) {
    rusqlite::Connection::open_in_memory()
}

/// Relies on rusqlite::Connection::open, which opens (or creates) the database file at `path`.
#[verifier::external_body]
fn open_path(path: &str) -> (r: Result<rusqlite::Connection, rusqlite::Error>) {
    rusqlite::Connection::open(path)
}

/// Relies on rusqlite::Connection::execute_batch, which runs each statement of `sql`.
#[verifier::external_body]
fn execute_batch(conn: &rusqlite::Connection, sql: &str) -> (r: Result<(), rusqlite::Error>) {
    conn.execute_batch(sql)
}

/// Relies on rusqlite::Connection::execute, which runs `sql` with `args` bound
/// to its parameters in order, and counts the rows changed.
#[verifier::external_body]
fn execute(conn: &rusqlite::Connection, sql: &str, args: &Vec<SqlArg>) -> (r: Result<usize, rusqlite::Error>) {
    let values = args.iter().map(|a| match a {
        SqlArg::Int(i) => rusqlite::types::Value::Integer(*i),
        SqlArg::Text(t) => rusqlite::types::Value::Text(t.clone()),
    });
    conn.execute(sql, rusqlite::params_from_iter(values))
}

/// Relies on rusqlite::Connection::prepare and Statement::query_map, which run
/// the query `sql` with `args` bound in order and hand back its rows, columns
/// read by position.
#[verifier::external_body]
fn query_rows(conn: &rusqlite::Connection, sql: &str, args: &Vec<String>) -> (r: Result<Vec<StoredRow>, rusqlite::Error>) {
    let mut stmt = conn.prepare(sql)?;
    let rows = stmt.query_map(rusqlite::params_from_iter(args.iter()), |row| {
        Ok(StoredRow {
            src: row.get(0)?,
            dst: row.get(1)?,
            date: row.get(2)?,
            units: row.get(3)?,
            scale: row.get(4)?,
            provider: row.get(5)?,
            cache_until: row.get(6)?,
        })
    })?;
    rows.collect()
}

/// Relies on chrono::Local::now and DateTime::timestamp: the time now, in
/// seconds since the Unix epoch.
#[verifier::external_body]
fn now_timestamp() -> (r: i64) {
    chrono::Local::now().timestamp()
}

/// The rate that `row` holds, if it holds one.
pub fn rate_from_row(row: &StoredRow) -> (r: Result<Rate, CacheError>)
    ensures
        row_is_valid(row@) ==> (r is Ok && r->Ok_0@ == rate_of_row(row@)),
        !row_is_valid(row@) ==> r == Err::<Rate, CacheError>(CacheError::Storage),
{
    if row.scale < 0 || row.scale as u64 > usize::MAX as u64 {
        return Err(CacheError::Storage);
    }
    Ok(Rate {
        src: Currency { code: row.src.clone() },
        dst: Currency { code: row.dst.clone() },
        date: row.date,
        rate: Amount { units: row.units, scale: row.scale as usize },
        provider: row.provider.clone(),
        cache_until: row.cache_until,
    })
}

/// Reads the rates out of `rows` and splits them by freshness at `now`,
/// each part in the order of the rows. Fails when a row holds no rate.
pub fn classify_rows(rows: Vec<StoredRow>, now: i64) -> (r: Result<(Vec<Rate>, Vec<Rate>), CacheError>)
    ensures
        r is Ok <==> forall|k: int| 0 <= k < rows@.len() ==> row_is_valid(#[trigger] rows@[k]@),
        r is Ok ==> rate_views(r->Ok_0.0@) == fresh_of(rates_of_rows(row_views(rows@)), now)
            && rate_views(r->Ok_0.1@) == stale_of(rates_of_rows(row_views(rows@)), now),
        r is Err ==> r->Err_0 == CacheError::Storage,
{
    let ghost all = rates_of_rows(row_views(rows@));
    let mut rates: Vec<Rate> = Vec::new();
    let mut i: usize = 0;
    while i < rows.len()
        invariant
            i <= rows@.len(),
            all == rates_of_rows(row_views(rows@)),
            rates@.len() == i,
            rate_views(rates@) == all.subrange(0, i as int),
            forall|k: int| 0 <= k < i ==> row_is_valid(#[trigger] rows@[k]@),
        decreases rows@.len() - i,
    {
        match rate_from_row(&rows[i]) {
            Ok(rate) => {
                let ghost old_rates = rates@;
                rates.push(rate);
                assert(rate_views(rates@) =~= all.subrange(0, i + 1)) by {
                    assert forall|k: int| 0 <= k < i implies rates@[k] == old_rates[k] by {}
                }
            },
            Err(e) => {
                return Err(e);
            },
        }
        i = i + 1;
    }
    assert(all.subrange(0, i as int) == all);
    Ok(partition_by_expiry(rates, now))
}

/// The rate cache: rates stored by source, destination and provider.
pub struct Db {
    conn: rusqlite::Connection,
    rows: Ghost<Seq<StoredRowView>>,
}

impl Db {
    /// The table as the statements sent through this handle leave it, taken
    /// empty when the handle was made. Rows that a database file already
    /// held are not part of it.
    pub closed spec fn rows(&self) -> Seq<StoredRowView> {
        self.rows@
    }

    /// Opens the cache stored at `path`, creating its table where missing.
    pub fn new(path: &str) -> (r: Result<Db, CacheError>)
        ensures
            r is Ok ==> table_ok(r->Ok_0.rows()),
            r is Err ==> r->Err_0 == CacheError::Storage,
    {
        match open_path(path) {
            Ok(conn) => Db::init(conn),
            Err(_) => Err(CacheError::Storage),
        }
    }

    /// A cache held in memory only, empty.
    pub fn new_in_memory() -> (r: Result<Db, CacheError>)
        ensures
            r is Ok ==> r->Ok_0.rows().len() == 0,
            r is Err ==> r->Err_0 == CacheError::Storage,
    {
        match open_in_memory() {
            Ok(conn) => Db::init(conn),
            Err(_) => Err(CacheError::Storage),
        }
    }

    /// Creates the table of rates on `conn` where missing.
    fn init(conn: rusqlite::Connection) -> (r: Result<Db, CacheError>)
        ensures
            r is Ok ==> r->Ok_0.rows().len() == 0 && table_ok(r->Ok_0.rows()),
            r is Err ==> r->Err_0 == CacheError::Storage,
    {
        match execute_batch(&conn, SCHEMA) {
            Ok(()) => Ok(Db { conn, rows: Ghost(Seq::empty()) }),
            Err(_) => Err(CacheError::Storage),
        }
    }

    /// The stored rates from `src` to `dst` given by `provider`: those fresh
    /// now, and the others, each in the order the store gives them. From a
    /// currency to itself, the parity rate alone, fresh, and the store is not
    /// queried.
    pub fn get_rates(&self, src: &Currency, dst: &Currency, provider: &str) -> (r: Result<(Vec<Rate>, Vec<Rate>), CacheError>)
        ensures
            src@ == dst@ ==> r is Ok && rate_views(r->Ok_0.0@) == seq![parity_view(src@)]
                && r->Ok_0.1@.len() == 0,
            src@ != dst@ && r is Ok ==> exists|rows: Seq<StoredRowView>, now: i64|
                #[trigger] read_back(rows, now, rate_views(r->Ok_0.0@), rate_views(r->Ok_0.1@)),
            r is Err ==> r->Err_0 == CacheError::Storage,
    {
        if src.same_as(dst) {
            let mut fresh: Vec<Rate> = Vec::new();
            fresh.push(Rate::parity(src));
            assert(rate_views(fresh@) =~= seq![parity_view(src@)]);
            return Ok((fresh, Vec::new()));
        }
        let args = select_args_of(src, dst, provider);
        let rows = match query_rows(&self.conn, SELECT_RATES, &args) {
            Ok(rows) => rows,
            Err(_) => {
                return Err(CacheError::Storage);
            },
        };
        let now = now_timestamp();
        let r = classify_rows(rows, now);
        proof {
            if r is Ok {
                assert(read_back(row_views(rows@), now, rate_views(r->Ok_0.0@), rate_views(r->Ok_0.1@)));
            }
        }
        r
    }

    /// Stores `rate`, replacing the stored rate with its source, destination
    /// and provider. A rate from a currency to itself is not stored; a rate
    /// that cannot be stored is refused before anything is written.
    pub fn set_rate(&mut self, rate: &Rate) -> (r: Result<(), CacheError>)
        ensures
            rate.src@ == rate.dst@ ==> r == Ok::<(), CacheError>(()),
            rate.src@ != rate.dst@ ==> (r == Err::<(), CacheError>(CacheError::InvalidRate)
                <==> !is_storable(rate@)),
            r is Err ==> r->Err_0 == CacheError::InvalidRate || r->Err_0 == CacheError::Storage,
            rate.src@ != rate.dst@ && r is Ok ==> final(self).rows() == upserted(old(self).rows(), row_of_rate(rate@)),
            rate.src@ == rate.dst@ || r is Err ==> final(self).rows() == old(self).rows(),
            table_ok(old(self).rows()) ==> table_ok(final(self).rows()),
    {
        if rate.src.same_as(&rate.dst) {
            return Ok(());
        }
        let args = match upsert_args_of(rate) {
            Some(args) => args,
            None => {
                return Err(CacheError::InvalidRate);
            },
        };
        match execute(&self.conn, UPSERT_RATE, &args) {
            Ok(_) => {
                proof {
                    if table_ok(self.rows@) {
                        lemma_upsert_keeps_table(self.rows@, row_of_rate(rate@));
                    }
                }
                self.rows = Ghost(upserted(self.rows@, row_of_rate(rate@)));
                Ok(())
            },
            Err(_) => Err(CacheError::Storage),
        }
    }

    /// Removes the stored rates from the source to the destination of `rate`,
    /// whatever their provider; the reverse direction stays. Nothing stored is
    /// no error.
    pub fn del_rate(&mut self, rate: &Rate) -> (r: Result<(), CacheError>)
        ensures
            r is Ok ==> final(self).rows() == without_pair(old(self).rows(), rate.src@, rate.dst@),
            r is Err ==> r->Err_0 == CacheError::Storage && final(self).rows() == old(self).rows(),
            table_ok(old(self).rows()) ==> table_ok(final(self).rows()),
    {
        let args = delete_args_of(rate);
        match execute(&self.conn, DELETE_RATES, &args) {
            Ok(_) => {
                proof {
                    if table_ok(self.rows@) {
                        lemma_delete_keeps_table(self.rows@, rate.src@, rate.dst@);
                    }
                }
                self.rows = Ghost(without_pair(self.rows@, rate.src@, rate.dst@));
                Ok(())
            },
            Err(_) => Err(CacheError::Storage),
        }
    }
}

/// The parameters of the query for the rates from `src` to `dst` by `provider`.
pub fn select_args_of(src: &Currency, dst: &Currency, provider: &str) -> (r: Vec<String>)
    ensures
        r@.map_values(|a: String| a@) == seq![src@, dst@, provider@],
{
    let mut args: Vec<String> = Vec::new();
    args.push(src.code.clone());
    args.push(dst.code.clone());
    args.push(provider.to_string());
    assert(args@.map_values(|a: String| a@) =~= seq![src@, dst@, provider@]);
    args
}

/// The parameters of the delete of the rates from the source to the
/// destination of `rate`.
pub fn delete_args_of(rate: &Rate) -> (r: Vec<SqlArg>)
    ensures
        arg_views(r@) == seq![SqlArgView::Text(rate.src@), SqlArgView::Text(rate.dst@)],
{
    let mut args: Vec<SqlArg> = Vec::new();
    args.push(SqlArg::Text(rate.src.code.clone()));
    args.push(SqlArg::Text(rate.dst.code.clone()));
    assert(arg_views(args@) =~= seq![SqlArgView::Text(rate.src@), SqlArgView::Text(rate.dst@)]);
    args
}

/// The parameters that store `rate`, where it can be stored.
pub fn upsert_args_of(rate: &Rate) -> (r: Option<Vec<SqlArg>>)
    ensures
        r is Some <==> is_storable(rate@),
        r is Some ==> arg_views(r->Some_0@) == upsert_args(rate@),
{
    let until = match rate.cache_until {
        Some(t) => t,
        None => {
            return None;
        },
    };
    if rate.rate.scale as u64 > i64::MAX as u64 {
        return None;
    }
    let mut args: Vec<SqlArg> = Vec::new();
    args.push(SqlArg::Text(rate.src.code.clone()));
    args.push(SqlArg::Text(rate.dst.code.clone()));
    args.push(SqlArg::Int(rate.date));
    args.push(SqlArg::Int(rate.rate.units));
    args.push(SqlArg::Int(rate.rate.scale as i64));
    args.push(SqlArg::Text(rate.provider.clone()));
    args.push(SqlArg::Int(until));
    assert(arg_views(args@) =~= upsert_args(rate@));
    Some(args)
}

} // verus!
