//! A movie catalogue: records kept in memory and written to a text snapshot,
//! or kept in an embedded SQLite store.
mod codec;
mod command;
mod database;
mod movie;
mod store;

pub use codec::{
    all_quoted, decimal, decode, digit_char, encode, encode_chars, encode_chars_as, field_text,
    form_ok, forms_ok, plain_ok, row_text_as, rows_text_as, snapshot_text_as, written_as, escape_char, escaped, header_text,
    lemma_snapshot_determines_records, quoted, row_text, rows_text, snapshot_text,
};
pub use command::{command_named, lower_of, same_text, Command};
pub use database::{
    create_table_statement, delete_statement, first_row, id_params, insert_params,
    insert_statement, no_params, optional_text, select_all_statement, select_one_statement,
    store_error, touched, update_params, update_statement, MovieError, MovieManager, SqlParam,
};
pub use movie::{views, with_fields, Movie, MovieView};
pub use store::{
    delete_of, first_match, has_id, is_first_match, lemma_create_then_read,
    lemma_delete_then_read, lemma_found_iff_present, lemma_update_missing,
    lemma_update_without_fields, read_of, unique_ids, update_of, FileMovieManager,
};
