//! Closed, type-safe vocabularies of the columns that dynamic operations
//! may target.  Mapping each variant to its literal column identifier by an
//! exhaustive match keeps caller-supplied text out of column positions.

use vstd::prelude::*;

verus! {

use vstd::string::StringExecFns;

/// A column of the word table.  Every updatable or queryable column has a
/// variant; `Id` is queryable but never updatable.
#[derive(Debug, Copy, Clone, PartialEq, Eq, Structural)]
pub enum WordField {
    Id,
    Expression,
    Reading,
    Meaning,
    JLPT,
    PracticeTime,
    Familiar,
    UserMark,
}

/// The literal column identifier of a word-table column.
pub open spec fn word_column_name(f: WordField) -> Seq<char> {
    match f {
        WordField::Id => "id"@,
        WordField::Expression => "expression"@,
        WordField::Reading => "reading"@,
        WordField::Meaning => "meaning"@,
        WordField::JLPT => "jlpt"@,
        WordField::PracticeTime => "practice_time"@,
        WordField::Familiar => "familiar"@,
        WordField::UserMark => "user_mark"@,
    }
}

impl WordField {
    /// The literal column identifier of this column.
    pub fn to_string(&self) -> (r: String)
        ensures
            r@ == word_column_name(*self),
    {
        match self {
            WordField::Id => String::from_str("id"),
            WordField::Expression => String::from_str("expression"),
            WordField::Reading => String::from_str("reading"),
            WordField::Meaning => String::from_str("meaning"),
            WordField::JLPT => String::from_str("jlpt"),
            WordField::PracticeTime => String::from_str("practice_time"),
            WordField::Familiar => String::from_str("familiar"),
            WordField::UserMark => String::from_str("user_mark"),
        }
    }
}

/// A column of the progress sub-record, together with the id that keys it.
#[derive(Debug, Copy, Clone, PartialEq, Eq, Structural)]
pub enum FamiliarityField {
    Id,
    PracticeTime,
    Familiar,
    UserMark,
}

/// The literal column identifier of a progress column.
pub open spec fn familiarity_column_name(f: FamiliarityField) -> Seq<char> {
    match f {
        FamiliarityField::Id => "id"@,
        FamiliarityField::PracticeTime => "practice_time"@,
        FamiliarityField::Familiar => "familiar"@,
        FamiliarityField::UserMark => "user_mark"@,
    }
}

impl FamiliarityField {
    /// The literal column identifier of this column.
    pub fn to_string(&self) -> (r: String)
        ensures
            r@ == familiarity_column_name(*self),
    {
        match self {
            FamiliarityField::Id => String::from_str("id"),
            FamiliarityField::PracticeTime => String::from_str("practice_time"),
            FamiliarityField::Familiar => String::from_str("familiar"),
            FamiliarityField::UserMark => String::from_str("user_mark"),
        }
    }
}

} // verus!
