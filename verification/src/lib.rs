//! An embedded record store for vocabulary study progress.
//!
//! A [`WordRecord`] couples a vocabulary entry (surface expression, reading,
//! gloss, difficulty tier) with its per-word study progress (practice count,
//! familiarity flag, user mark).  [`WordStore`] keeps the records in creation
//! order, assigns ids monotonically, and offers a query engine (lookups,
//! filtered practice-set selection, aggregate counts) and a mutation engine
//! (composable progress updates, field-targeted bulk updates, deletes and
//! bulk resets), each with a full functional contract.

pub mod error;
pub mod field;
pub mod laws;
pub mod level;
pub mod loader;
pub mod record;
pub mod select;
pub mod shuffle;
pub mod store;
pub mod text;
pub mod update;

pub use error::StoreError;
pub use field::FamiliarityField;
pub use field::WordField;
pub use level::JLPTlv;
pub use loader::load_csv_to_word_records;
pub use loader::rows_to_word_records;
pub use record::WordRecord;
pub use record::WordView;
pub use select::ProgressSelect;
pub use store::WordStore;
pub use store::bulk_insert_words;
pub use store::count_total_familiar_words;
pub use store::count_total_practiced_words;
pub use store::count_total_user_marked_words;
pub use store::count_unfamiliar_practiced_words;
pub use store::count_unique_practiced_words;
pub use store::delete_words;
pub use store::find_word_by_ids;
pub use store::find_word_ids;
pub use store::insert_words;
pub use store::reset_all_user_progress;
pub use store::reset_database;
pub use store::return_words_by_user_progress;
pub use store::update_user_progress;
pub use store::update_word_field;
pub use update::ProgressUpdate;
