use movie_manager::{decode, encode, FileMovieManager, Movie, MovieError};

fn text(s: &str) -> String {
    s.to_string()
}

fn same(m: &Movie, id: u32, title: &str, director: &str, release_date: &str) -> bool {
    m.id == id && m.title == title && m.director == director && m.release_date == release_date
}

#[test]
fn encode_empty_is_header_only() {
    assert_eq!(encode(&vec![]), "id,title,director,release_date\n");
}

#[test]
fn encode_quotes_text_fields() {
    let movies = vec![
        Movie::new(1, text("Inception"), text("Nolan"), text("2010-07-16")),
        Movie::new(250, text("Heat, \"the\" film"), text(""), text("1995")),
    ];
    assert_eq!(
        encode(&movies),
        "id,title,director,release_date\n1,\"Inception\",\"Nolan\",\"2010-07-16\"\n250,\"Heat, \"\"the\"\" film\",\"\",\"1995\"\n"
    );
}

#[test]
fn encode_extreme_ids() {
    let movies = vec![
        Movie::new(0, text("a"), text("b"), text("c")),
        Movie::new(4294967295, text("x"), text("y"), text("z")),
    ];
    assert_eq!(
        encode(&movies),
        "id,title,director,release_date\n0,\"a\",\"b\",\"c\"\n4294967295,\"x\",\"y\",\"z\"\n"
    );
}

#[test]
fn decode_reads_back_encoded_records() {
    let movies = vec![
        Movie::new(7, text("Alien"), text("Scott"), text("1979-05-25")),
        Movie::new(4294967295, text("Say \"hi\", twice"), text("Über"), text("")),
        Movie::new(0, text("line\nbreak"), text(","), text("\"")),
    ];
    let back = decode(&encode(&movies)).ok().unwrap();
    assert_eq!(back.len(), 3);
    assert!(same(&back[0], 7, "Alien", "Scott", "1979-05-25"));
    assert!(same(&back[1], 4294967295, "Say \"hi\", twice", "Über", ""));
    assert!(same(&back[2], 0, "line\nbreak", ",", "\""));
}

#[test]
fn decode_header_only_is_empty() {
    assert_eq!(decode("id,title,director,release_date\n").ok().map(|v| v.len()), Some(0));
}

#[test]
fn decode_rejects_non_numeric_id() {
    let r = decode("id,title,director,release_date\nx1,\"a\",\"b\",\"c\"\n");
    assert!(matches!(r.err(), Some(MovieError::Format)));
}

#[test]
fn decode_rejects_missing_column() {
    let r = decode("id,title,director,release_date\n1,\"a\",\"b\"\n");
    assert!(matches!(r.err(), Some(MovieError::Format)));
}

#[test]
fn decode_rejects_id_out_of_range() {
    let r = decode("id,title,director,release_date\n4294967296,\"a\",\"b\",\"c\"\n");
    assert!(matches!(r.err(), Some(MovieError::Format)));
}

#[test]
fn decode_rejects_missing_header() {
    assert!(matches!(decode("1,\"a\",\"b\",\"c\"\n").err(), Some(MovieError::Format)));
    assert!(matches!(decode("").err(), Some(MovieError::Format)));
}

#[test]
fn decode_rejects_unterminated_field() {
    let r = decode("id,title,director,release_date\n1,\"a\",\"b\",\"c\n");
    assert!(matches!(r.err(), Some(MovieError::Format)));
}

#[test]
fn save_then_load_into_fresh_manager() {
    let mut first = FileMovieManager::new();
    first.create_movie(3, text("Up"), text("Docter"), text("2009-05-29"));
    first.create_movie(1, text("Inception"), text("Nolan"), text("2010-07-16"));
    first.create_movie(2, text("Heat, the film"), text("Mann"), text("1995"));
    let saved = first.save();
    let mut second = FileMovieManager::new();
    assert!(second.load(&saved).is_ok());
    let all = second.list_movies();
    assert_eq!(all.len(), 3);
    assert!(same(&all[0], 3, "Up", "Docter", "2009-05-29"));
    assert!(same(&all[1], 1, "Inception", "Nolan", "2010-07-16"));
    assert!(same(&all[2], 2, "Heat, the film", "Mann", "1995"));
    assert_eq!(second.save(), saved);
}

#[test]
fn load_appends_after_held_records() {
    let mut mgr = FileMovieManager::new();
    mgr.create_movie(9, text("Nine"), text("N"), text("9"));
    assert!(mgr.load("id,title,director,release_date\n1,\"One\",\"O\",\"1\"\n").is_ok());
    let all = mgr.list_movies();
    assert_eq!(all.len(), 2);
    assert!(same(&all[0], 9, "Nine", "N", "9"));
    assert!(same(&all[1], 1, "One", "O", "1"));
}

#[test]
fn failed_load_changes_nothing() {
    let mut mgr = FileMovieManager::new();
    mgr.create_movie(9, text("Nine"), text("N"), text("9"));
    let r = mgr.load("id,title,director,release_date\n1,\"One\",\"O\"\n");
    assert!(matches!(r, Err(MovieError::Format)));
    assert_eq!(mgr.list_movies().len(), 1);
    assert!(same(&mgr.list_movies()[0], 9, "Nine", "N", "9"));
}

#[test]
fn decode_accepts_unquoted_fields() {
    let back = decode("id,title,director,release_date\n1,Inception,Nolan,2010-07-16\n2,\"Heat, the film\",Mann,\n").ok().unwrap();
    assert_eq!(back.len(), 2);
    assert!(same(&back[0], 1, "Inception", "Nolan", "2010-07-16"));
    assert!(same(&back[1], 2, "Heat, the film", "Mann", ""));
}

#[test]
fn decode_rejects_quote_inside_unquoted_field() {
    let r = decode("id,title,director,release_date\n1,In\"ception,Nolan,2010\n");
    assert!(matches!(r.err(), Some(MovieError::Format)));
}

#[test]
fn load_accepts_unquoted_fields() {
    let mut mgr = FileMovieManager::new();
    assert!(mgr.load("id,title,director,release_date\n1,Inception,Nolan,2010-07-16\n").is_ok());
    assert!(same(&mgr.read_movie(1).unwrap(), 1, "Inception", "Nolan", "2010-07-16"));
}
