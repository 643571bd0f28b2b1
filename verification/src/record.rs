//! The word record: a vocabulary entry with its embedded progress
//! sub-record, and its mathematical model.

use vstd::prelude::*;

verus! {

use crate::level::valid_level;

/// The mathematical model of a word record: each text column as a sequence
/// of characters, each counter as an unbounded integer.
pub ghost struct WordView {
    pub id: int,
    pub expression: Seq<char>,
    pub reading: Seq<char>,
    pub meaning: Seq<char>,
    pub jlpt: Seq<char>,
    pub practice_time: int,
    pub familiar: bool,
    pub user_mark: bool,
}

/// A vocabulary entry together with its progress sub-record.  The store
/// persists the two as one denormalized row: a record whose progress was
/// never touched carries the defaults `practice_time = 0`,
/// `familiar = false`, `user_mark = false`.
#[derive(Debug, Clone)]
pub struct WordRecord {
    /// Unique, stable identity; assigned by the store on creation.
    pub id: i64,
    /// The surface form; non-empty once stored.
    pub expression: String,
    /// Phonetic reading of the expression; non-empty once stored.
    pub reading: String,
    /// Gloss or translation; non-empty once stored.
    pub meaning: String,
    /// Canonical token of the difficulty tier; one of the five tokens once
    /// stored.
    pub jlpt: String,
    /// How often the word was practiced; non-negative, and non-decreasing
    /// except on an explicit reset.
    pub practice_time: i64,
    /// Caller-asserted mastery flag.
    pub familiar: bool,
    /// Caller-asserted "flagged for review" flag, independent of mastery.
    pub user_mark: bool,
}

impl View for WordRecord {
    type V = WordView;

    open spec fn view(&self) -> WordView {
        WordView {
            id: self.id as int,
            expression: self.expression@,
            reading: self.reading@,
            meaning: self.meaning@,
            jlpt: self.jlpt@,
            practice_time: self.practice_time as int,
            familiar: self.familiar,
            user_mark: self.user_mark,
        }
    }
}

/// The models of a sequence of records.
pub open spec fn views_of(rs: Seq<WordRecord>) -> Seq<WordView> {
    rs.map_values(|r: WordRecord| r@)
}

/// A well-formed stored record: a positive id, non-empty text columns, a
/// valid tier token, and a practice counter within the engine's integer
/// range.
pub open spec fn wf_word(w: WordView) -> bool {
    &&& 1 <= w.id <= i64::MAX
    &&& w.expression.len() > 0
    &&& w.reading.len() > 0
    &&& w.meaning.len() > 0
    &&& valid_level(w.jlpt)
    &&& 0 <= w.practice_time <= i64::MAX
}

/// Copies a record; the copy models the same value.
pub fn clone_record(r: &WordRecord) -> (c: WordRecord)
    ensures
        c@ == r@,
{
    WordRecord {
        id: r.id,
        expression: r.expression.clone(),
        reading: r.reading.clone(),
        meaning: r.meaning.clone(),
        jlpt: r.jlpt.clone(),
        practice_time: r.practice_time,
        familiar: r.familiar,
        user_mark: r.user_mark,
    }
}

} // verus!
