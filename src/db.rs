//! The persisted index: one table of modules, kept in an SQLite file.

use vstd::prelude::*;
use crate::analysis::{Info, InfoModel};
use crate::crawl::{FileModel, ModuleFile};
use crate::text::{chars_of, join_spec, join_with, occurs, occurs_in, pieces_of, split_spec, views};

verus! {

#[verifier::external_type_specification]
#[verifier::external_body]
pub struct ExConnection(rusqlite::Connection);

#[verifier::external_type_specification]
#[verifier::external_body]
pub struct ExSqliteError(rusqlite::Error);

/// One answer to a search: a module and a command that it provides.
#[derive(Clone, Debug)]
pub struct BinResult {
    pub code: String,
    pub command: String,
}

impl View for BinResult {
    type V = (Seq<char>, Seq<char>);

    open spec fn view(&self) -> (Seq<char>, Seq<char>) {
        (self.code@, self.command@)
    }
}

/// A row as a search reads it: the module code and its `:`-joined commands.
#[derive(Clone, Debug)]
pub struct StoredRow {
    pub code: String,
    pub bins: String,
}

impl View for StoredRow {
    type V = (Seq<char>, Seq<char>);

    open spec fn view(&self) -> (Seq<char>, Seq<char>) {
        (self.code@, self.bins@)
    }
}

/// Why an operation on the index failed.
#[derive(Clone, Copy, PartialEq, Eq, Structural, Debug)]
pub enum DbError {
    /// The database file could not be opened.
    Open,
    /// A statement or a transaction failed.
    Statement,
}

/// A value bound to a statement parameter.
#[derive(Clone, Debug)]
pub enum SqlArg {
    Int(i64),
    Text(String),
    Null,
}

/// What a `SqlArg` holds, as a plain value.
pub ghost enum ArgModel {
    Int(int),
    Text(Seq<char>),
    Null,
}

impl View for SqlArg {
    type V = ArgModel;

    open spec fn view(&self) -> ArgModel {
        match self {
            SqlArg::Int(i) => ArgModel::Int(*i as int),
            SqlArg::Text(t) => ArgModel::Text(t@),
            SqlArg::Null => ArgModel::Null,
        }
    }
}

pub open spec fn arg_views(a: Seq<SqlArg>) -> Seq<ArgModel> {
    a.map_values(|x: SqlArg| x@)
}

pub open spec fn row_views(rows: Seq<StoredRow>) -> Seq<(Seq<char>, Seq<char>)> {
    rows.map_values(|r: StoredRow| r@)
}

pub open spec fn result_views(rs: Seq<BinResult>) -> Seq<(Seq<char>, Seq<char>)> {
    rs.map_values(|r: BinResult| r@)
}

/// Relies on rusqlite::Connection::open: opens (or creates) the database file.
#[verifier::external_body]
fn open_connection(path: &str) -> (r: Result<rusqlite::Connection, rusqlite::Error>) {
    rusqlite::Connection::open(path)
}

/// Relies on rusqlite::Connection::execute_batch: runs SQL without parameters.
#[verifier::external_body]
fn run_batch(conn: &rusqlite::Connection, sql: &str) -> (r: Result<(), rusqlite::Error>) {
    conn.execute_batch(sql)
}

/// Relies on rusqlite::Connection::execute: runs one statement with the
/// given parameters and returns the number of rows that it changed.
#[verifier::external_body]
fn run_statement(conn: &rusqlite::Connection, sql: &str, args: &Vec<SqlArg>) -> (r: Result<
    usize,
    rusqlite::Error,
>) {
    let vals = args.iter().map(|a| match a {
        SqlArg::Int(i) => rusqlite::types::Value::Integer(*i),
        SqlArg::Text(t) => rusqlite::types::Value::Text(t.clone()),
        SqlArg::Null => rusqlite::types::Value::Null,
    });
    conn.execute(sql, rusqlite::params_from_iter(vals))
}

/// Relies on rusqlite::Connection::prepare and Statement::query_map: runs a
/// query whose rows hold the commands and then the code of a module.
#[verifier::external_body]
fn query_rows(conn: &rusqlite::Connection, sql: &str, pattern: &str) -> (r: Result<
    Vec<StoredRow>,
    rusqlite::Error,
>) {
    let mut stmt = conn.prepare(sql)?;
    let rows = stmt.query_map([pattern], |row| Ok(StoredRow { bins: row.get(0)?, code: row.get(1)? }))?;
    rows.collect()
}

pub open spec fn file_views(fs: Seq<ModuleFile>) -> Seq<FileModel> {
    fs.map_values(|f: ModuleFile| f@)
}

/// The bound value of a content digest: an integer, or NULL when unknown.
pub open spec fn hash_arg(h: Option<u32>) -> ArgModel {
    match h {
        Some(x) => ArgModel::Int(x as int),
        None => ArgModel::Null,
    }
}

pub open spec fn colon() -> Seq<char> {
    seq![':']
}

/// The `bins` column of a module: its commands joined by `:`.
pub open spec fn bins_column(bins: Seq<Seq<char>>) -> Seq<char> {
    join_spec(bins, colon())
}

/// The parameters of the verify probe: nonce, code, path, digest.
pub open spec fn compare_arg_model(f: FileModel, nonce: u32) -> Seq<ArgModel> {
    seq![ArgModel::Int(nonce as int), ArgModel::Text(f.code), ArgModel::Text(f.path), hash_arg(f.hash)]
}

/// The parameters of the upsert: path, code, nonce, digest, joined commands.
pub open spec fn upsert_arg_model(a: InfoModel, nonce: u32) -> Seq<ArgModel> {
    seq![
        ArgModel::Text(a.file.path),
        ArgModel::Text(a.file.code),
        ArgModel::Int(nonce as int),
        hash_arg(a.file.hash),
        ArgModel::Text(bins_column(a.bins)),
    ]
}

/// The pattern that pre-selects rows whose commands hold `cmd` anywhere.
pub open spec fn like_pattern_of(cmd: Seq<char>) -> Seq<char> {
    seq!['%'] + cmd + seq!['%']
}

/// The modules whose probe changed no row, in input order.
pub open spec fn stale_by_count(fs: Seq<FileModel>, counts: Seq<usize>) -> Seq<FileModel>
    decreases fs.len(),
{
    if fs.len() == 0 {
        seq![]
    } else {
        let rest = stale_by_count(fs.drop_last(), counts.drop_last());
        if counts.last() < 1 {
            rest.push(fs.last())
        } else {
            rest
        }
    }
}

/// The answers of an exact search over rows (code, commands): one
/// `(code, cmd)` for each row whose commands hold `cmd` as a whole element.
pub open spec fn exact_results(rows: Seq<(Seq<char>, Seq<char>)>, cmd: Seq<char>) -> Seq<
    (Seq<char>, Seq<char>),
>
    decreases rows.len(),
{
    if rows.len() == 0 {
        seq![]
    } else {
        let rest = exact_results(rows.drop_last(), cmd);
        if split_spec(rows.last().1, ':').contains(cmd) {
            rest.push((rows.last().0, cmd))
        } else {
            rest
        }
    }
}

/// One `(code, bin)` for each command `bin` of the list that holds `cmd`.
pub open spec fn fuzzy_in_row(code: Seq<char>, bins: Seq<Seq<char>>, cmd: Seq<char>) -> Seq<
    (Seq<char>, Seq<char>),
>
    decreases bins.len(),
{
    if bins.len() == 0 {
        seq![]
    } else {
        let rest = fuzzy_in_row(code, bins.drop_last(), cmd);
        if occurs_in(cmd, bins.last()) {
            rest.push((code, bins.last()))
        } else {
            rest
        }
    }
}

/// The answers of a substring search over rows (code, commands), row by row.
pub open spec fn fuzzy_results(rows: Seq<(Seq<char>, Seq<char>)>, cmd: Seq<char>) -> Seq<
    (Seq<char>, Seq<char>),
>
    decreases rows.len(),
{
    if rows.len() == 0 {
        seq![]
    } else {
        fuzzy_results(rows.drop_last(), cmd) + fuzzy_in_row(
            rows.last().0,
            split_spec(rows.last().1, ':'),
            cmd,
        )
    }
}

fn hash_value(h: Option<u32>) -> (r: SqlArg)
    ensures
        r@ == hash_arg(h),
{
    match h {
        Some(x) => SqlArg::Int(x as i64),
        None => SqlArg::Null,
    }
}

/// The parameters of the verify probe for one module.
pub fn compare_args(m: &ModuleFile, nonce: u32) -> (r: Vec<SqlArg>)
    ensures
        arg_views(r@) == compare_arg_model(m@, nonce),
{
    let r = vec![
        SqlArg::Int(nonce as i64),
        SqlArg::Text(m.code.clone()),
        SqlArg::Text(m.path.clone()),
        hash_value(m.hash),
    ];
    assert(arg_views(r@) =~= compare_arg_model(m@, nonce));
    r
}

/// The `:`-joined commands of a module.
pub fn bins_text(bins: &Vec<String>) -> (r: String)
    ensures
        r@ == bins_column(views(bins@)),
{
    proof {
        reveal_strlit(":");
    }
    assert(":"@ =~= colon());
    join_with(bins, ":")
}

/// The parameters of the upsert for one analysed module.
pub fn upsert_args(a: &Info, nonce: u32) -> (r: Vec<SqlArg>)
    ensures
        arg_views(r@) == upsert_arg_model(a@, nonce),
{
    let r = vec![
        SqlArg::Text(a.file.path.clone()),
        SqlArg::Text(a.file.code.clone()),
        SqlArg::Int(nonce as i64),
        hash_value(a.file.hash),
        SqlArg::Text(bins_text(&a.bins)),
    ];
    assert(arg_views(r@) =~= upsert_arg_model(a@, nonce));
    r
}

/// The pattern `%cmd%`.
pub fn like_pattern(cmd: &str) -> (r: String)
    ensures
        r@ == like_pattern_of(cmd@),
{
    proof {
        reveal_strlit("%");
    }
    let mut r = String::from_str("%");
    r.append(cmd);
    r.append("%");
    r
}

/// The modules whose verify probe changed no row, given the number of rows
/// that each probe changed.
pub fn select_stale(local: &Vec<ModuleFile>, counts: &Vec<usize>) -> (r: Vec<ModuleFile>)
    requires
        counts.len() == local.len(),
    ensures
        file_views(r@) == stale_by_count(file_views(local@), counts@),
{
    let mut r: Vec<ModuleFile> = Vec::new();
    let mut i: usize = 0;
    while i < local.len()
        invariant
            i <= local.len(),
            counts.len() == local.len(),
            file_views(r@) == stale_by_count(file_views(local@).take(i as int), counts@.take(i as int)),
        decreases local.len() - i,
    {
        assert(file_views(local@).take(i + 1).drop_last() =~= file_views(local@).take(i as int));
        assert(counts@.take(i + 1).drop_last() =~= counts@.take(i as int));
        if counts[i] < 1 {
            let ghost old_r = r@;
            r.push(local[i].duplicate());
            assert(file_views(r@) =~= file_views(old_r).push(local[i as int]@));
        }
        i = i + 1;
    }
    assert(file_views(local@).take(i as int) =~= file_views(local@));
    assert(counts@.take(i as int) =~= counts@);
    r
}

/// Whether `cmd` is one of the `:`-separated commands of `bins`.
pub fn has_command(bins: &str, cmd: &str) -> (r: bool)
    ensures
        r == split_spec(bins@, ':').contains(cmd@),
{
    let pieces = pieces_of(bins, ':');
    let wanted = cmd.to_owned();
    let mut i: usize = 0;
    while i < pieces.len()
        invariant
            wanted@ == cmd@,
            i <= pieces.len(),
            views(pieces@) == split_spec(bins@, ':'),
            forall|k: int| 0 <= k < i ==> (#[trigger] pieces[k])@ != cmd@,
        decreases pieces.len() - i,
    {
        if pieces[i] == wanted {
            assert(views(pieces@)[i as int] == cmd@);
            return true;
        }
        i = i + 1;
    }
    assert forall|k: int| 0 <= k < views(pieces@).len() implies views(pieces@)[k] != cmd@ by {
        assert(pieces[k]@ != cmd@);
    }
    false
}

/// The answers of an exact search over the rows that the index handed back.
pub fn exact_matches(rows: &Vec<StoredRow>, cmd: &str) -> (r: Vec<BinResult>)
    ensures
        result_views(r@) == exact_results(row_views(rows@), cmd@),
{
    let mut r: Vec<BinResult> = Vec::new();
    let mut i: usize = 0;
    while i < rows.len()
        invariant
            i <= rows.len(),
            result_views(r@) == exact_results(row_views(rows@).take(i as int), cmd@),
        decreases rows.len() - i,
    {
        assert(row_views(rows@).take(i + 1).drop_last() =~= row_views(rows@).take(i as int));
        if has_command(rows[i].bins.as_str(), cmd) {
            let ghost old_r = r@;
            r.push(BinResult { code: rows[i].code.clone(), command: cmd.to_owned() });
            assert(result_views(r@) =~= result_views(old_r).push((rows[i as int].code@, cmd@)));
        }
        i = i + 1;
    }
    assert(row_views(rows@).take(i as int) =~= row_views(rows@));
    r
}

/// The answers of a substring search in one row's commands.
fn fuzzy_row(code: &String, bins: &str, cmd: &Vec<char>, out: &mut Vec<BinResult>)
    ensures
        result_views(final(out)@) == result_views(old(out)@) + fuzzy_in_row(
            code@,
            split_spec(bins@, ':'),
            cmd@,
        ),
{
    let pieces = pieces_of(bins, ':');
    let ghost start = result_views(out@);
    let mut i: usize = 0;
    while i < pieces.len()
        invariant
            i <= pieces.len(),
            views(pieces@) == split_spec(bins@, ':'),
            result_views(out@) == start + fuzzy_in_row(code@, views(pieces@).take(i as int), cmd@),
        decreases pieces.len() - i,
    {
        assert(views(pieces@).take(i + 1).drop_last() =~= views(pieces@).take(i as int));
        assert(views(pieces@).take(i + 1).last() == pieces[i as int]@);
        let cs = chars_of(pieces[i].as_str());
        if occurs(cmd, &cs) {
            let ghost old_out = out@;
            out.push(BinResult { code: code.clone(), command: pieces[i].clone() });
            assert(result_views(out@) =~= result_views(old_out).push((code@, pieces[i as int]@)));
        }
        i = i + 1;
    }
    assert(views(pieces@).take(i as int) =~= views(pieces@));
}

/// The answers of a substring search over the rows that the index handed back.
pub fn fuzzy_matches(rows: &Vec<StoredRow>, cmd: &str) -> (r: Vec<BinResult>)
    ensures
        result_views(r@) == fuzzy_results(row_views(rows@), cmd@),
{
    let cmd_chars = chars_of(cmd);
    let mut r: Vec<BinResult> = Vec::new();
    let mut i: usize = 0;
    while i < rows.len()
        invariant
            i <= rows.len(),
            cmd_chars@ == cmd@,
            result_views(r@) == fuzzy_results(row_views(rows@).take(i as int), cmd@),
        decreases rows.len() - i,
    {
        assert(row_views(rows@).take(i + 1).drop_last() =~= row_views(rows@).take(i as int));
        fuzzy_row(&rows[i].code, rows[i].bins.as_str(), &cmd_chars, &mut r);
        i = i + 1;
    }
    assert(row_views(rows@).take(i as int) =~= row_views(rows@));
    r
}

/// The statements that the index runs.
#[derive(Clone, Copy, PartialEq, Eq, Structural, Debug)]
pub enum Sql {
    /// Creates the modules table if it is absent.
    CreateTable,
    /// Turns on write-ahead journaling.
    Wal,
    /// Opens a transaction.
    Begin,
    /// Commits the open transaction.
    Commit,
    /// Rolls the open transaction back.
    Rollback,
    /// The verify probe: stamps nonce and code where path and digest match.
    Probe,
    /// Inserts an analysed module, or replaces the row with its path.
    Upsert,
    /// Deletes every row not stamped with the given nonce.
    DeleteUnstamped,
    /// Deletes every row.
    Purge,
    /// Reads commands and code of the rows whose commands match a LIKE pattern.
    SelectLike,
}

/// The text of each statement.
pub open spec fn sql_text(s: Sql) -> Seq<char> {
    match s {
        Sql::CreateTable => "CREATE TABLE IF NOT EXISTS modules (path TEXT UNIQUE, code TEXT, nonce INT, hash BIGINT, bins TEXT)"@,
        Sql::Wal => "PRAGMA journal_mode=WAL"@,
        Sql::Begin => "BEGIN"@,
        Sql::Commit => "COMMIT"@,
        Sql::Rollback => "ROLLBACK"@,
        Sql::Probe => "UPDATE modules SET nonce=?, code=? WHERE path=? AND hash=?"@,
        Sql::Upsert => "INSERT INTO modules VALUES (?1, ?2, ?3, ?4, ?5) ON CONFLICT(path) DO UPDATE SET code=?2, nonce=?3, hash=?4, bins=?5"@,
        Sql::DeleteUnstamped => "DELETE FROM modules WHERE nonce != ?1"@,
        Sql::Purge => "DELETE FROM modules"@,
        Sql::SelectLike => "SELECT bins, code FROM modules WHERE bins LIKE ?1"@,
    }
}

impl Sql {
    /// The statement's text.
    pub fn text(self) -> (r: &'static str)
        ensures
            r@ == sql_text(self),
    {
        match self {
            Sql::CreateTable => "CREATE TABLE IF NOT EXISTS modules (path TEXT UNIQUE, code TEXT, nonce INT, hash BIGINT, bins TEXT)",
            Sql::Wal => "PRAGMA journal_mode=WAL",
            Sql::Begin => "BEGIN",
            Sql::Commit => "COMMIT",
            Sql::Rollback => "ROLLBACK",
            Sql::Probe => "UPDATE modules SET nonce=?, code=? WHERE path=? AND hash=?",
            Sql::Upsert => "INSERT INTO modules VALUES (?1, ?2, ?3, ?4, ?5) ON CONFLICT(path) DO UPDATE SET code=?2, nonce=?3, hash=?4, bins=?5",
            Sql::DeleteUnstamped => "DELETE FROM modules WHERE nonce != ?1",
            Sql::Purge => "DELETE FROM modules",
            Sql::SelectLike => "SELECT bins, code FROM modules WHERE bins LIKE ?1",
        }
    }
}

/// The parameters of the orphan deletion: the nonce to keep.
pub fn orphan_args(nonce: u32) -> (r: Vec<SqlArg>)
    ensures
        arg_views(r@) == seq![ArgModel::Int(nonce as int)],
{
    let r = vec![SqlArg::Int(nonce as i64)];
    assert(arg_views(r@) =~= seq![ArgModel::Int(nonce as int)]);
    r
}

/// A connection to the index file.
pub struct DB {
    conn: rusqlite::Connection,
}

fn statement_error(e: rusqlite::Error) -> (r: DbError)
    ensures
        r == DbError::Statement,
{
    DbError::Statement
}

impl DB {
    /// Creates the modules table in the file at `db_path` if it is absent.
    pub fn initialize(db_path: &str) -> (r: Result<(), DbError>)
        ensures
            r matches Err(e) ==> e == DbError::Open || e == DbError::Statement,
    {
        let conn = match open_connection(db_path) {
            Ok(c) => c,
            Err(_) => return Err(DbError::Open),
        };
        match run_batch(&conn, Sql::CreateTable.text()) {
            Ok(()) => Ok(()),
            Err(e) => Err(statement_error(e)),
        }
    }

    /// Opens the index file at `db_path`, with write-ahead journaling.
    pub fn new(db_path: &str) -> (r: Result<DB, DbError>)
        ensures
            r matches Err(e) ==> e == DbError::Open || e == DbError::Statement,
    {
        let conn = match open_connection(db_path) {
            Ok(c) => c,
            Err(_) => return Err(DbError::Open),
        };
        match run_batch(&conn, Sql::Wal.text()) {
            Ok(()) => Ok(DB { conn }),
            Err(e) => Err(statement_error(e)),
        }
    }

    fn begin(&self) -> (r: Result<(), DbError>)
        ensures
            r matches Err(e) ==> e == DbError::Statement,
    {
        match run_batch(&self.conn, Sql::Begin.text()) {
            Ok(()) => Ok(()),
            Err(e) => Err(statement_error(e)),
        }
    }

    fn commit(&self) -> (r: Result<(), DbError>)
        ensures
            r matches Err(e) ==> e == DbError::Statement,
    {
        match run_batch(&self.conn, Sql::Commit.text()) {
            Ok(()) => Ok(()),
            Err(e) => {
                self.rollback();
                Err(statement_error(e))
            },
        }
    }

    fn rollback(&self) {
        let _ = run_batch(&self.conn, Sql::Rollback.text());
    }

    /// In one transaction, stamps `nonce` and the code on every row whose path
    /// and digest match a module of `local`, and returns, in input order, the
    /// modules whose probe changed no row: those that need a new analysis.
    pub fn compare_modules(&mut self, local: Vec<ModuleFile>, nonce: u32) -> (r: Result<
        Vec<ModuleFile>,
        DbError,
    >)
        ensures
            r matches Ok(stale) ==> exists|counts: Seq<usize>|
                counts.len() == local.len() && file_views(stale@) == stale_by_count(
                    file_views(local@),
                    counts,
                ),
            r matches Err(e) ==> e == DbError::Statement,
    {
        if let Err(e) = self.begin() {
            return Err(e);
        }
        let mut counts: Vec<usize> = Vec::new();
        let mut i: usize = 0;
        while i < local.len()
            invariant
                i <= local.len(),
                counts.len() == i,
            decreases local.len() - i,
        {
            let args = compare_args(&local[i], nonce);
            match run_statement(&self.conn, Sql::Probe.text(), &args) {
                Ok(n) => counts.push(n),
                Err(e) => {
                    self.rollback();
                    return Err(statement_error(e));
                },
            }
            i = i + 1;
        }
        if let Err(e) = self.commit() {
            return Err(e);
        }
        Ok(select_stale(&local, &counts))
    }

    /// In one transaction, inserts each analysed module with `nonce`, or
    /// replaces the row that has its path.
    pub fn update_modules(&mut self, res: &Vec<Info>, nonce: u32) -> (r: Result<(), DbError>)
        ensures
            r matches Err(e) ==> e == DbError::Statement,
    {
        if let Err(e) = self.begin() {
            return Err(e);
        }
        let mut i: usize = 0;
        while i < res.len()
            invariant
                i <= res.len(),
            decreases res.len() - i,
        {
            let args = upsert_args(&res[i], nonce);
            match run_statement(&self.conn, Sql::Upsert.text(), &args) {
                Ok(_) => {},
                Err(e) => {
                    self.rollback();
                    return Err(statement_error(e));
                },
            }
            i = i + 1;
        }
        self.commit()
    }

    /// In one transaction, deletes every row not stamped with `nonce`, and
    /// returns how many went.
    pub fn flush_orphans(&mut self, nonce: u32) -> (r: Result<usize, DbError>)
        ensures
            r matches Err(e) ==> e == DbError::Statement,
    {
        self.delete_unstamped(nonce)
    }

    pub(crate) fn delete_unstamped(&self, nonce: u32) -> (r: Result<usize, DbError>)
        ensures
            r matches Err(e) ==> e == DbError::Statement,
    {
        if let Err(e) = self.begin() {
            return Err(e);
        }
        let args = orphan_args(nonce);
        let n = match run_statement(&self.conn, Sql::DeleteUnstamped.text(), &args) {
            Ok(n) => n,
            Err(e) => {
                self.rollback();
                return Err(statement_error(e));
            },
        };
        if let Err(e) = self.commit() {
            return Err(e);
        }
        Ok(n)
    }

    fn rows_containing(&self, command: &str) -> (r: Result<Vec<StoredRow>, DbError>)
        ensures
            r matches Err(e) ==> e == DbError::Statement,
    {
        let pattern = like_pattern(command);
        match query_rows(&self.conn, Sql::SelectLike.text(), pattern.as_str()) {
            Ok(rows) => Ok(rows),
            Err(e) => Err(statement_error(e)),
        }
    }

    /// The modules that provide `command` exactly, each as `(code, command)`,
    /// taken from the rows whose commands hold it as a substring.
    pub fn search_bin(&self, command: String) -> (r: Result<Vec<BinResult>, DbError>)
        ensures
            r matches Ok(res) ==> exists|rows: Seq<(Seq<char>, Seq<char>)>|
                result_views(res@) == exact_results(rows, command@),
            r matches Err(e) ==> e == DbError::Statement,
    {
        let rows = match self.rows_containing(command.as_str()) {
            Ok(rows) => rows,
            Err(e) => return Err(e),
        };
        Ok(exact_matches(&rows, command.as_str()))
    }

    /// Every command that holds `command` as a substring, with its module.
    pub fn search_bin_fuzzy(&self, command: String) -> (r: Result<Vec<BinResult>, DbError>)
        ensures
            r matches Ok(res) ==> exists|rows: Seq<(Seq<char>, Seq<char>)>|
                result_views(res@) == fuzzy_results(rows, command@),
            r matches Err(e) ==> e == DbError::Statement,
    {
        let rows = match self.rows_containing(command.as_str()) {
            Ok(rows) => rows,
            Err(e) => return Err(e),
        };
        Ok(fuzzy_matches(&rows, command.as_str()))
    }

    /// Deletes every row.
    pub fn purge(&self) -> (r: Result<(), DbError>)
        ensures
            r matches Err(e) ==> e == DbError::Statement,
    {
        match run_batch(&self.conn, Sql::Purge.text()) {
            Ok(()) => Ok(()),
            Err(e) => Err(statement_error(e)),
        }
    }
}

} // verus!
