use movie_manager::{
    create_table_statement, delete_statement, id_params, insert_statement, no_params,
    select_all_statement, select_one_statement, update_statement,
};
use movie_manager::{
    first_row, insert_params, optional_text, store_error, touched, update_params, Command,
    FileMovieManager, Movie, MovieError, MovieManager, SqlParam,
};

fn same(m: &Movie, id: u32, title: &str, director: &str, release_date: &str) -> bool {
    m.id == id && m.title == title && m.director == director && m.release_date == release_date
}

fn inception() -> Movie {
    Movie::new(1, "Inception".to_string(), "Nolan".to_string(), "2010-07-16".to_string())
}

fn text(s: &str) -> String {
    s.to_string()
}

#[test]
fn movie_new_keeps_fields() {
    let m = inception();
    assert!(same(&m, 1, "Inception", "Nolan", "2010-07-16"));
    let d = m.duplicate();
    assert!(same(&d, 1, "Inception", "Nolan", "2010-07-16"));
}

#[test]
fn movie_with_updates_replaces_given_fields() {
    let m = inception().with_updates(Some(text("Inception 2")), None, Some(text("2030-01-01")));
    assert!(same(&m, 1, "Inception 2", "Nolan", "2030-01-01"));
}

#[test]
fn file_scenario_create_list_update_delete() {
    let mut mgr = FileMovieManager::new();
    mgr.create_movie(1, text("Inception"), text("Nolan"), text("2010-07-16"));
    let all = mgr.list_movies();
    assert_eq!(all.len(), 1);
    assert!(same(&all[0], 1, "Inception", "Nolan", "2010-07-16"));
    assert!(mgr.update_movie(1, Some(text("Inception 2")), None, None));
    let m = mgr.read_movie(1).unwrap();
    assert!(same(&m, 1, "Inception 2", "Nolan", "2010-07-16"));
    assert!(mgr.delete_movie(1));
    assert!(mgr.read_movie(1).is_none());
}

#[test]
fn file_create_then_read_round_trip() {
    let mut mgr = FileMovieManager::new();
    mgr.create_movie(7, text("Alien"), text("Scott"), text("1979-05-25"));
    mgr.create_movie(8, text("Heat, the film"), text("Mann"), text("1995-12-15"));
    let m = mgr.read_movie(8).unwrap();
    assert!(same(&m, 8, "Heat, the film", "Mann", "1995-12-15"));
    let m = mgr.read_movie(7).unwrap();
    assert!(same(&m, 7, "Alien", "Scott", "1979-05-25"));
}

#[test]
fn file_duplicate_ids_read_first() {
    let mut mgr = FileMovieManager::new();
    mgr.create_movie(3, text("First"), text("A"), text("2000"));
    mgr.create_movie(3, text("Second"), text("B"), text("2001"));
    assert_eq!(mgr.list_movies().len(), 2);
    assert!(same(&mgr.read_movie(3).unwrap(), 3, "First", "A", "2000"));
    assert!(mgr.delete_movie(3));
    assert!(same(&mgr.read_movie(3).unwrap(), 3, "Second", "B", "2001"));
}

#[test]
fn file_delete_then_read_not_found() {
    let mut mgr = FileMovieManager::new();
    mgr.create_movie(1, text("Inception"), text("Nolan"), text("2010-07-16"));
    mgr.create_movie(2, text("Memento"), text("Nolan"), text("2000-09-05"));
    assert!(mgr.delete_movie(1));
    assert!(mgr.read_movie(1).is_none());
    assert!(!mgr.delete_movie(1));
    assert_eq!(mgr.list_movies().len(), 1);
    assert!(same(&mgr.list_movies()[0], 2, "Memento", "Nolan", "2000-09-05"));
}

#[test]
fn file_update_without_fields_keeps_record() {
    let mut mgr = FileMovieManager::new();
    mgr.create_movie(1, text("Inception"), text("Nolan"), text("2010-07-16"));
    assert!(mgr.update_movie(1, None, None, None));
    assert!(same(&mgr.read_movie(1).unwrap(), 1, "Inception", "Nolan", "2010-07-16"));
}

#[test]
fn file_update_missing_id_changes_nothing() {
    let mut mgr = FileMovieManager::new();
    mgr.create_movie(1, text("Inception"), text("Nolan"), text("2010-07-16"));
    assert!(!mgr.update_movie(2, Some(text("X")), Some(text("Y")), Some(text("Z"))));
    assert_eq!(mgr.list_movies().len(), 1);
    assert!(same(&mgr.list_movies()[0], 1, "Inception", "Nolan", "2010-07-16"));
    assert!(mgr.read_movie(2).is_none());
}

#[test]
fn file_load_appends_in_order() {
    let mut mgr = FileMovieManager::new();
    mgr.create_movie(5, text("E"), text("e"), text("5"));
    mgr.load_movies(vec![
        Movie::new(1, text("A"), text("a"), text("1")),
        Movie::new(2, text("B"), text("b"), text("2")),
    ]);
    let all = mgr.list_movies();
    assert_eq!(all.len(), 3);
    assert!(same(&all[0], 5, "E", "e", "5"));
    assert!(same(&all[1], 1, "A", "a", "1"));
    assert!(same(&all[2], 2, "B", "b", "2"));
}

#[test]
fn database_scenario_create_list_update_delete() {
    let mgr = MovieManager::new(":memory:").ok().unwrap();
    assert!(mgr.create_movie(1, text("Inception"), text("Nolan"), text("2010-07-16")).is_ok());
    let all = mgr.list_movies().ok().unwrap();
    assert_eq!(all.len(), 1);
    assert!(same(&all[0], 1, "Inception", "Nolan", "2010-07-16"));
    assert_eq!(mgr.update_movie(1, Some(text("Inception 2")), None, None).ok(), Some(true));
    let m = mgr.read_movie(1).ok().unwrap().unwrap();
    assert!(same(&m, 1, "Inception 2", "Nolan", "2010-07-16"));
    assert_eq!(mgr.delete_movie(1).ok(), Some(true));
    assert!(mgr.read_movie(1).ok().unwrap().is_none());
}

#[test]
fn database_create_then_read_round_trip() {
    let mgr = MovieManager::new(":memory:").ok().unwrap();
    assert!(mgr.create_movie(42, text("Heat, the film"), text("Mann"), text("1995-12-15")).is_ok());
    let m = mgr.read_movie(42).ok().unwrap().unwrap();
    assert!(same(&m, 42, "Heat, the film", "Mann", "1995-12-15"));
}

#[test]
fn database_duplicate_id_is_constraint_error() {
    let mgr = MovieManager::new(":memory:").ok().unwrap();
    assert!(mgr.create_movie(1, text("Inception"), text("Nolan"), text("2010-07-16")).is_ok());
    let r = mgr.create_movie(1, text("Other"), text("Someone"), text("2020-01-01"));
    assert!(matches!(r, Err(MovieError::Constraint(_))));
    let all = mgr.list_movies().ok().unwrap();
    assert_eq!(all.len(), 1);
    assert!(same(&all[0], 1, "Inception", "Nolan", "2010-07-16"));
}

#[test]
fn database_delete_then_read_not_found() {
    let mgr = MovieManager::new(":memory:").ok().unwrap();
    assert!(mgr.create_movie(9, text("Up"), text("Docter"), text("2009-05-29")).is_ok());
    assert_eq!(mgr.delete_movie(9).ok(), Some(true));
    assert!(mgr.read_movie(9).ok().unwrap().is_none());
    assert_eq!(mgr.delete_movie(9).ok(), Some(false));
}

#[test]
fn database_update_without_fields_keeps_record() {
    let mgr = MovieManager::new(":memory:").ok().unwrap();
    assert!(mgr.create_movie(1, text("Inception"), text("Nolan"), text("2010-07-16")).is_ok());
    assert_eq!(mgr.update_movie(1, None, None, None).ok(), Some(true));
    let m = mgr.read_movie(1).ok().unwrap().unwrap();
    assert!(same(&m, 1, "Inception", "Nolan", "2010-07-16"));
}

#[test]
fn database_update_missing_id_changes_nothing() {
    let mgr = MovieManager::new(":memory:").ok().unwrap();
    assert!(mgr.create_movie(1, text("Inception"), text("Nolan"), text("2010-07-16")).is_ok());
    assert_eq!(mgr.update_movie(2, Some(text("X")), None, Some(text("Z"))).ok(), Some(false));
    assert!(mgr.read_movie(2).ok().unwrap().is_none());
    let all = mgr.list_movies().ok().unwrap();
    assert_eq!(all.len(), 1);
    assert!(same(&all[0], 1, "Inception", "Nolan", "2010-07-16"));
}

#[test]
fn database_update_several_fields() {
    let mgr = MovieManager::new(":memory:").ok().unwrap();
    assert!(mgr.create_movie(1, text("Inception"), text("Nolan"), text("2010-07-16")).is_ok());
    assert_eq!(mgr.update_movie(1, None, Some(text("C. Nolan")), Some(text("2010-07-08"))).ok(), Some(true));
    let m = mgr.read_movie(1).ok().unwrap().unwrap();
    assert!(same(&m, 1, "Inception", "C. Nolan", "2010-07-08"));
}

#[test]
fn command_from_str_folds_case() {
    assert!(Command::from_str("LIST") == Some(Command::List));
    assert!(Command::from_str("Create") == Some(Command::Create));
    assert!(Command::from_str("read") == Some(Command::Read));
    assert!(Command::from_str("uPdAtE") == Some(Command::Update));
    assert!(Command::from_str("DELETE") == Some(Command::Delete));
    assert!(Command::from_str("help") == Some(Command::Help));
    assert!(Command::from_str("remove").is_none());
    assert!(Command::from_str("").is_none());
}

#[test]
fn command_from_lowercase_is_exact() {
    assert!(Command::from_lowercase("list") == Some(Command::List));
    assert!(Command::from_lowercase("LIST").is_none());
    assert!(Command::from_lowercase("lists").is_none());
}

#[test]
fn first_row_takes_the_first() {
    assert!(first_row(vec![]).is_none());
    let r = first_row(vec![inception(), Movie::new(2, text("B"), text("b"), text("2"))]).unwrap();
    assert!(same(&r, 1, "Inception", "Nolan", "2010-07-16"));
}

#[test]
fn touched_counts_rows() {
    assert!(!touched(0));
    assert!(touched(1));
    assert!(touched(3));
}

#[test]
fn store_error_kinds() {
    let c = store_error(true, rusqlite::Error::QueryReturnedNoRows);
    assert!(matches!(c, MovieError::Constraint(rusqlite::Error::QueryReturnedNoRows)));
    let i = store_error(false, rusqlite::Error::ExecuteReturnedResults);
    assert!(matches!(i, MovieError::Io(rusqlite::Error::ExecuteReturnedResults)));
}

#[test]
fn params_in_placeholder_order() {
    let p = insert_params(4, text("T"), text("D"), text("R"));
    assert_eq!(p.len(), 4);
    assert!(matches!(p[0], SqlParam::Id(4)));
    assert!(matches!(&p[1], SqlParam::Text(s) if s == "T"));
    assert!(matches!(&p[3], SqlParam::Text(s) if s == "R"));
    let u = update_params(4, None, Some(text("D")), None);
    assert!(matches!(u[0], SqlParam::Id(4)));
    assert!(matches!(u[1], SqlParam::Absent));
    assert!(matches!(&u[2], SqlParam::Text(s) if s == "D"));
    assert!(matches!(u[3], SqlParam::Absent));
    assert!(matches!(optional_text(None), SqlParam::Absent));
}

#[test]
fn statements_name_the_movies_table() {
    assert!(create_table_statement().starts_with("CREATE TABLE IF NOT EXISTS movies"));
    assert_eq!(insert_statement(), "INSERT INTO movies (id, title, director, release_date) VALUES (?1, ?2, ?3, ?4)");
    assert_eq!(select_one_statement(), "SELECT id, title, director, release_date FROM movies WHERE id = ?1");
    assert_eq!(select_all_statement(), "SELECT id, title, director, release_date FROM movies");
    assert!(update_statement().starts_with("UPDATE movies SET title = COALESCE(?2, title)"));
    assert_eq!(delete_statement(), "DELETE FROM movies WHERE id = ?1");
    let p = id_params(5);
    assert_eq!(p.len(), 1);
    assert!(matches!(p[0], SqlParam::Id(5)));
    assert!(no_params().is_empty());
}
