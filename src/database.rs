use vstd::prelude::*;

use crate::movie::Movie;

verus! {

/// Declares SQLite's connection handle, carried through opaque.
#[verifier::external_type_specification]
#[verifier::external_body]
pub struct ExConnection(rusqlite::Connection);

/// Declares the error that every SQLite call may return.
#[verifier::external_type_specification]
#[verifier::external_body]
pub struct ExSqliteError(rusqlite::Error);

/// Why a catalogue operation failed. A failure of the store carries
/// SQLite's error as it was reported.
pub enum MovieError {
    /// The store could not be reached, read or written.
    Io(rusqlite::Error),
    /// A row of a snapshot could not be decoded.
    Format,
    /// The store refused a second record under an id it already holds.
    Constraint(rusqlite::Error),
}

/// A value bound to one placeholder of a statement.
pub enum SqlParam {
    Id(u32),
    Text(String),
    Absent,
}

/// The statement that creates the table of records if it is missing.
pub fn create_table_statement() -> (r: &'static str)
    ensures
        r@ == "CREATE TABLE IF NOT EXISTS movies (id INTEGER PRIMARY KEY, title TEXT NOT NULL, director TEXT NOT NULL, release_date TEXT NOT NULL)"@,
{
    "CREATE TABLE IF NOT EXISTS movies (id INTEGER PRIMARY KEY, title TEXT NOT NULL, director TEXT NOT NULL, release_date TEXT NOT NULL)"
}

/// The statement that inserts one record; it binds the values of `insert_params`.
pub fn insert_statement() -> (r: &'static str)
    ensures
        r@ == "INSERT INTO movies (id, title, director, release_date) VALUES (?1, ?2, ?3, ?4)"@,
{
    "INSERT INTO movies (id, title, director, release_date) VALUES (?1, ?2, ?3, ?4)"
}

/// The statement that selects the record under an id; it binds the values of `id_params`.
pub fn select_one_statement() -> (r: &'static str)
    ensures
        r@ == "SELECT id, title, director, release_date FROM movies WHERE id = ?1"@,
{
    "SELECT id, title, director, release_date FROM movies WHERE id = ?1"
}

/// The statement that selects every record; it binds no value.
pub fn select_all_statement() -> (r: &'static str)
    ensures
        r@ == "SELECT id, title, director, release_date FROM movies"@,
{
    "SELECT id, title, director, release_date FROM movies"
}

/// The statement that updates the record under an id in one step; it binds the
/// values of `update_params`, and a null value keeps the stored field.
pub fn update_statement() -> (r: &'static str)
    ensures
        r@ == "UPDATE movies SET title = COALESCE(?2, title), director = COALESCE(?3, director), release_date = COALESCE(?4, release_date) WHERE id = ?1"@,
{
    "UPDATE movies SET title = COALESCE(?2, title), director = COALESCE(?3, director), release_date = COALESCE(?4, release_date) WHERE id = ?1"
}

/// The statement that deletes the record under an id; it binds the values of `id_params`.
pub fn delete_statement() -> (r: &'static str)
    ensures
        r@ == "DELETE FROM movies WHERE id = ?1"@,
{
    "DELETE FROM movies WHERE id = ?1"
}

/// The values bound to a statement that names one record by its id.
pub fn id_params(id: u32) -> (r: Vec<SqlParam>)
    ensures
        r@ == seq![SqlParam::Id(id)],
{
    vec![SqlParam::Id(id)]
}

/// The values bound to a statement that has no placeholder.
pub fn no_params() -> (r: Vec<SqlParam>)
    ensures
        r@ == Seq::<SqlParam>::empty(),
{
    Vec::new()
}

/// Relies on rusqlite::Connection::open: opens (or creates) the database file at `path`.
#[verifier::external_body]
fn open_connection(path: &str) -> (r: Result<rusqlite::Connection, rusqlite::Error>) {
    rusqlite::Connection::open(path)
}

/// Relies on rusqlite::Connection::execute and rusqlite::params_from_iter:
/// runs one statement with the values bound in order, and returns the
/// number of rows it changed.
#[verifier::external_body]
fn execute(
    conn: &rusqlite::Connection,
    sql: &str,
    params: &Vec<SqlParam>,
) -> (r: Result<usize, rusqlite::Error>) {
    let values = params.iter().map(|p| match p {
        SqlParam::Id(n) => rusqlite::types::Value::Integer(*n as i64),
        SqlParam::Text(s) => rusqlite::types::Value::Text(s.clone()),
        SqlParam::Absent => rusqlite::types::Value::Null,
    });
    conn.execute(sql, rusqlite::params_from_iter(values))
}

/// Relies on rusqlite's Connection::prepare, Statement::query_map and
/// Row::get: runs a select of the four columns, with the values bound in
/// order, and returns its rows in the order the store gives them, each
/// built by `Movie::new`.
#[verifier::external_body]
fn query_movies(
    conn: &rusqlite::Connection,
    sql: &str,
    params: &Vec<SqlParam>,
) -> (r: Result<Vec<Movie>, rusqlite::Error>) {
    let values = params.iter().map(|p| match p {
        SqlParam::Id(n) => rusqlite::types::Value::Integer(*n as i64),
        SqlParam::Text(s) => rusqlite::types::Value::Text(s.clone()),
        SqlParam::Absent => rusqlite::types::Value::Null,
    });
    let mut stmt = conn.prepare(sql)?;
    let rows = stmt.query_map(rusqlite::params_from_iter(values), |row| {
        Ok(Movie::new(row.get(0)?, row.get(1)?, row.get(2)?, row.get(3)?))
    })?;
    rows.collect()
}

/// Relies on rusqlite::Error::sqlite_error_code: tells whether SQLite
/// reported a constraint violation.
#[verifier::external_body]
fn is_constraint_violation(e: &rusqlite::Error) -> (r: bool) {
    e.sqlite_error_code() == Some(rusqlite::ErrorCode::ConstraintViolation)
}

/// The library's error for the failed store call that reported `e`, given
/// whether `e` is a constraint violation; `e` is kept unchanged.
pub fn store_error(constraint_violation: bool, e: rusqlite::Error) -> (r: MovieError)
    ensures
        r == (if constraint_violation {
            MovieError::Constraint(e)
        } else {
            MovieError::Io(e)
        }),
{
    if constraint_violation {
        MovieError::Constraint(e)
    } else {
        MovieError::Io(e)
    }
}

fn map_error(e: rusqlite::Error) -> (r: MovieError)
    ensures
        r == MovieError::Constraint(e) || r == MovieError::Io(e),
{
    let constraint_violation = is_constraint_violation(&e);
    store_error(constraint_violation, e)
}

/// The record of a select by id: its first row, if any.
pub fn first_row(rows: Vec<Movie>) -> (r: Option<Movie>)
    ensures
        r == (if rows@.len() == 0 {
            None
        } else {
            Some(rows@[0])
        }),
{
    let mut rows = rows;
    if rows.len() == 0 {
        None
    } else {
        Some(rows.swap_remove(0))
    }
}

/// Whether a statement that reports `changed` rows touched a record.
pub fn touched(changed: usize) -> (r: bool)
    ensures
        r == (changed > 0),
{
    changed > 0
}

/// The values bound to an insert, in placeholder order.
pub fn insert_params(
    id: u32,
    title: String,
    director: String,
    release_date: String,
) -> (r: Vec<SqlParam>)
    ensures
        r@.len() == 4,
        r@[0] == SqlParam::Id(id),
        r@[1] == SqlParam::Text(title),
        r@[2] == SqlParam::Text(director),
        r@[3] == SqlParam::Text(release_date),
{
    vec![
        SqlParam::Id(id),
        SqlParam::Text(title),
        SqlParam::Text(director),
        SqlParam::Text(release_date),
    ]
}

/// A text placeholder's value: the given text, or SQL's null that keeps
/// the stored value.
pub fn optional_text(v: Option<String>) -> (r: SqlParam)
    ensures
        r == (match v {
            Some(s) => SqlParam::Text(s),
            None => SqlParam::Absent,
        }),
{
    match v {
        Some(s) => SqlParam::Text(s),
        None => SqlParam::Absent,
    }
}

/// The values bound to an update, in placeholder order; an absent field
/// is bound to null and so keeps its stored value.
pub fn update_params(
    id: u32,
    title: Option<String>,
    director: Option<String>,
    release_date: Option<String>,
) -> (r: Vec<SqlParam>)
    ensures
        r@.len() == 4,
        r@[0] == SqlParam::Id(id),
        r@[1] == (match title {
            Some(s) => SqlParam::Text(s),
            None => SqlParam::Absent,
        }),
        r@[2] == (match director {
            Some(s) => SqlParam::Text(s),
            None => SqlParam::Absent,
        }),
        r@[3] == (match release_date {
            Some(s) => SqlParam::Text(s),
            None => SqlParam::Absent,
        }),
{
    vec![
        SqlParam::Id(id),
        optional_text(title),
        optional_text(director),
        optional_text(release_date),
    ]
}

/// The catalogue kept in an SQLite database.
pub struct MovieManager {
    conn: rusqlite::Connection,
}

impl MovieManager {
    /// Opens the database at `db_path` and makes sure the table exists.
    pub fn new(db_path: &str) -> (r: Result<MovieManager, MovieError>)
        ensures
            r matches Err(e) ==> (e is Io || e is Constraint),
    {
        let conn = match open_connection(db_path) {
            Ok(c) => c,
            Err(e) => return Err(map_error(e)),
        };
        let manager = MovieManager { conn };
        match manager.initialize_database() {
            Ok(()) => Ok(manager),
            Err(e) => Err(e),
        }
    }

    fn initialize_database(&self) -> (r: Result<(), MovieError>)
        ensures
            r matches Err(e) ==> (e is Io || e is Constraint),
    {
        let params = no_params();
        match execute(&self.conn, create_table_statement(), &params) {
            Ok(_) => Ok(()),
            Err(e) => Err(map_error(e)),
        }
    }

    /// Inserts a record; a second record under the same id is refused with
    /// `Constraint`.
    pub fn create_movie(
        &self,
        id: u32,
        title: String,
        director: String,
        release_date: String,
    ) -> (r: Result<(), MovieError>)
        ensures
            r matches Err(e) ==> (e is Io || e is Constraint),
    {
        let params = insert_params(id, title, director, release_date);
        match execute(&self.conn, insert_statement(), &params) {
            Ok(_) => Ok(()),
            Err(e) => Err(map_error(e)),
        }
    }

    /// The record stored under `id`, or `None`.
    pub fn read_movie(&self, id: u32) -> (r: Result<Option<Movie>, MovieError>)
        ensures
            r matches Err(e) ==> (e is Io || e is Constraint),
    {
        let params = id_params(id);
        match query_movies(&self.conn, select_one_statement(), &params) {
            Ok(rows) => Ok(first_row(rows)),
            Err(e) => Err(map_error(e)),
        }
    }

    /// Replaces the given fields of the record under `id` in one statement,
    /// so that either all or none are written; tells whether the record
    /// exists.
    pub fn update_movie(
        &self,
        id: u32,
        title: Option<String>,
        director: Option<String>,
        release_date: Option<String>,
    ) -> (r: Result<bool, MovieError>)
        ensures
            r matches Err(e) ==> (e is Io || e is Constraint),
    {
        let params = update_params(id, title, director, release_date);
        match execute(&self.conn, update_statement(), &params) {
            Ok(n) => Ok(touched(n)),
            Err(e) => Err(map_error(e)),
        }
    }

    /// Removes the record under `id`; tells whether there was one.
    pub fn delete_movie(&self, id: u32) -> (r: Result<bool, MovieError>)
        ensures
            r matches Err(e) ==> (e is Io || e is Constraint),
    {
        let params = id_params(id);
        match execute(&self.conn, delete_statement(), &params) {
            Ok(n) => Ok(touched(n)),
            Err(e) => Err(map_error(e)),
        }
    }

    /// Every stored record, in the order the store gives them.
    pub fn list_movies(&self) -> (r: Result<Vec<Movie>, MovieError>)
        ensures
            r matches Err(e) ==> (e is Io || e is Constraint),
    {
        let params = no_params();
        match query_movies(&self.conn, select_all_statement(), &params) {
            Ok(rows) => Ok(rows),
            Err(e) => Err(map_error(e)),
        }
    }
}

} // verus!
