//! The bulk loader: turns tabular text into records ready for seeding.
//! Each usable row carries at least four columns — expression, reading,
//! meaning and a tag column — and becomes a record at the given tier with
//! default progress; shorter rows are skipped, not fatal.

use vstd::prelude::*;

verus! {

broadcast use {vstd::seq_lib::group_seq_properties, Seq::<_>::group_seq_extra};

use crate::error::StoreError;
use crate::record::WordRecord;
use crate::record::WordView;
use crate::record::views_of;

/// The rows that the comma-separated input text parses to, each row a
/// sequence of column texts.  The first input line is a header row and is
/// not among them.
pub uninterp spec fn csv_rows_of(text: Seq<char>) -> Seq<Seq<Seq<char>>>;

/// Relies on `csv::ReaderBuilder` and `csv::Reader::records` (csv crate):
/// the records a reader over the text yields are a function of the text
/// alone.  Rows of uneven width are accepted (`flexible`), and the first
/// row is consumed as the header, as the store's tabular inputs carry
/// one.
#[verifier::external_body]
fn split_csv_rows(text: &str) -> (rows: Vec<Vec<String>>)
    ensures
        rows.deep_view() == csv_rows_of(text@),
{
    let mut reader = csv::ReaderBuilder::new().flexible(true).from_reader(text.as_bytes());
    let mut out: Vec<Vec<String>> = Vec::new();
    for record in reader.records() {
        if let Ok(row) = record {
            out.push(row.iter().map(|column| column.to_string()).collect());
        }
    }
    out
}

/// The record a usable row seeds: its first three columns as expression,
/// reading and meaning, the given tier token, and default progress.  The
/// id is left at zero for the store to assign.
pub open spec fn row_to_view(row: Seq<Seq<char>>, level: Seq<char>) -> WordView {
    WordView {
        id: 0,
        expression: row[0],
        reading: row[1],
        meaning: row[2],
        jlpt: level,
        practice_time: 0,
        familiar: false,
        user_mark: false,
    }
}

/// The rows wide enough to use: at least four columns.
pub open spec fn usable_rows(rows: Seq<Seq<Seq<char>>>) -> Seq<Seq<Seq<char>>> {
    rows.filter(|row: Seq<Seq<char>>| row.len() >= 4)
}

/// The records a batch of rows seeds at one tier, in row order.
pub open spec fn rows_as_views(rows: Seq<Seq<Seq<char>>>, level: Seq<char>) -> Seq<WordView> {
    usable_rows(rows).map_values(|row: Seq<Seq<char>>| row_to_view(row, level))
}

proof fn lemma_rows_as_views_step(rows: Seq<Seq<Seq<char>>>, level: Seq<char>, i: int)
    requires
        0 <= i < rows.len(),
    ensures
        rows_as_views(rows.take(i + 1), level) == if rows[i].len() >= 4 {
            rows_as_views(rows.take(i), level).push(row_to_view(rows[i], level))
        } else {
            rows_as_views(rows.take(i), level)
        },
{
    reveal(Seq::filter);
    assert(rows.take(i + 1).drop_last() =~= rows.take(i));
}

/// Appends, for every row with at least four columns, a record with the
/// row's first three columns, the given tier token and default progress.
/// Narrower rows are skipped.
#[verifier::loop_isolation(false)]
pub fn rows_to_word_records(rows: &Vec<Vec<String>>, records: &mut Vec<WordRecord>, jplt: &str)
    ensures
        views_of(final(records)@) == views_of(old(records)@) + rows_as_views(
            rows.deep_view(),
            jplt@,
        ),
{
    let n = rows.len();
    let mut i: usize = 0;
    proof {
        assert(views_of(records@) =~= views_of(old(records)@) + rows_as_views(
            rows.deep_view().take(0),
            jplt@,
        ));
    }
    while i < n
        invariant
            i <= n == rows@.len(),
            views_of(records@) == views_of(old(records)@) + rows_as_views(
                rows.deep_view().take(i as int),
                jplt@,
            ),
        decreases n - i,
    {
        proof {
            assert(rows.deep_view()[i as int] == rows@[i as int].deep_view());
            lemma_rows_as_views_step(rows.deep_view(), jplt@, i as int);
        }
        let row = &rows[i];
        if row.len() >= 4 {
            let w = WordRecord {
                id: 0,
                expression: row[0].clone(),
                reading: row[1].clone(),
                meaning: row[2].clone(),
                jlpt: String::from_str(jplt),
                practice_time: 0,
                familiar: false,
                user_mark: false,
            };
            proof {
                assert(rows@[i as int].deep_view()[0] == rows@[i as int]@[0]@);
                assert(rows@[i as int].deep_view()[1] == rows@[i as int]@[1]@);
                assert(rows@[i as int].deep_view()[2] == rows@[i as int]@[2]@);
                assert(w@ == row_to_view(rows.deep_view()[i as int], jplt@));
            }
            records.push(w);
        }
        proof {
            assert(views_of(records@) =~= views_of(old(records)@) + rows_as_views(
                rows.deep_view().take(i + 1),
                jplt@,
            ));
        }
        i = i + 1;
    }
    proof {
        assert(rows.deep_view().take(n as int) =~= rows.deep_view());
    }
}

/// Parses comma-separated text and appends a record for every usable row,
/// all at the given tier with default progress: the seeding side of the
/// store's lifecycle.  The text's first line is a header row.
pub fn load_csv_to_word_records(data: &str, records: &mut Vec<WordRecord>, jplt: &str) -> (r:
    Result<(), StoreError>)
    ensures
        r is Ok,
        views_of(final(records)@) == views_of(old(records)@) + rows_as_views(
            csv_rows_of(data@),
            jplt@,
        ),
{
    let rows = split_csv_rows(data);
    rows_to_word_records(&rows, records, jplt);
    Ok(())
}

} // verus!
