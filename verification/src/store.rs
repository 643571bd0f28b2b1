//! The embedded word table: creation-ordered records, monotonic id
//! assignment, and the query and mutation engines.

use vstd::prelude::*;

verus! {

use crate::error::StoreError;
use crate::field::WordField;

broadcast use {vstd::seq_lib::group_seq_properties, Seq::<_>::group_seq_extra};

use crate::level::JLPTlv;
use crate::level::level_token;
use crate::level::valid_level;
use crate::shuffle::shuffle_words;
use crate::record::WordRecord;
use crate::record::WordView;
use crate::record::clone_record;
use crate::record::views_of;
use crate::record::wf_word;
use crate::text::lemma_digits_value_nonneg;
use crate::text::parse_count;
use crate::text::parse_count_text;
use crate::text::parse_flag;
use crate::text::parse_flag_text;
use crate::text::str_eq;

/// The persisted table.  Records stand in creation order; `next_id` is the
/// id the next created record will receive, so ids are monotonic and never
/// reused within one schema lifetime.
pub struct WordStore {
    pub words: Vec<WordRecord>,
    pub next_id: i64,
}

/// A well-formed table: every record well-formed, ids strictly increasing
/// in creation order and all below the id counter.
pub open spec fn wf_table(v: Seq<WordView>, next_id: int) -> bool {
    &&& forall|i: int| 0 <= i < v.len() ==> wf_word(#[trigger] v[i])
    &&& forall|i: int| 0 <= i < v.len() ==> (#[trigger] v[i]).id < next_id
    &&& forall|i: int, j: int|
        0 <= i < j < v.len() ==> #[trigger] v[i].id < #[trigger] v[j].id
}

impl View for WordStore {
    type V = Seq<WordView>;

    open spec fn view(&self) -> Seq<WordView> {
        views_of(self.words@)
    }
}

impl WordStore {
    /// The store's invariant; constructors establish it and every
    /// operation preserves it.
    pub open spec fn wf(&self) -> bool {
        &&& 1 <= self.next_id
        &&& wf_table(self@, self.next_id as int)
    }

    /// Creates an empty store, ids starting from 1.  This is the schema
    /// creation step of the store's lifecycle.
    pub fn new() -> (s: WordStore)
        ensures
            s@ == Seq::<WordView>::empty(),
            s.next_id == 1,
            s.wf(),
    {
        let s = WordStore { words: Vec::new(), next_id: 1 };
        proof {
            assert(s@ =~= Seq::<WordView>::empty());
        }
        s
    }
}

/// In a well-formed table the record at an index carries an id of at least
/// the index plus one: ids start at 1 and strictly increase.
proof fn lemma_id_at_least_index(v: Seq<WordView>, k: int)
    requires
        wf_table(v, i64::MAX as int + 1),
        0 <= k < v.len(),
    ensures
        v[k].id >= k + 1,
    decreases k,
{
    if k > 0 {
        lemma_id_at_least_index(v, k - 1);
    }
}

/// A well-formed table holds at most `i64::MAX` records: ids are distinct
/// integers between 1 and `i64::MAX`.
pub proof fn lemma_table_len_bound(v: Seq<WordView>, next_id: int)
    requires
        wf_table(v, next_id),
        next_id <= i64::MAX as int + 1,
    ensures
        v.len() <= i64::MAX,
{
    if v.len() > i64::MAX {
        assert(wf_table(v, i64::MAX as int + 1));
        lemma_id_at_least_index(v, i64::MAX as int);
        assert(v[i64::MAX as int].id > i64::MAX);
        assert(false);
    }
}

/// Drops every record and restarts id assignment: the destructive
/// "drop and recreate schema" operation, distinct from a progress reset.
pub fn reset_database(store: &mut WordStore) -> (r: Result<(), StoreError>)
    ensures
        r is Ok,
        final(store)@ == Seq::<WordView>::empty(),
        final(store).next_id == 1,
        final(store).wf(),
{
    store.words.clear();
    store.next_id = 1;
    proof {
        assert(store@ =~= Seq::<WordView>::empty());
    }
    Ok(())
}

/// A record as the store seeds it: the id the store assigns, the caller's
/// text columns, and default progress.
pub open spec fn seed_word(w: WordView, id: int) -> WordView {
    WordView { id: id, practice_time: 0, familiar: false, user_mark: false, ..w }
}

/// The validation failure a record would raise on insertion, if any: text
/// columns must be non-empty and the tier token must name a tier.
pub open spec fn seed_error(w: WordView) -> Option<StoreError> {
    if w.expression.len() == 0 || w.reading.len() == 0 || w.meaning.len() == 0 {
        Some(StoreError::InvalidValue)
    } else if !valid_level(w.jlpt) {
        Some(StoreError::InvalidLevel)
    } else {
        None
    }
}

/// The first validation failure in a batch, if any.
pub open spec fn batch_error(ws: Seq<WordView>) -> Option<StoreError>
    decreases ws.len(),
{
    if ws.len() == 0 {
        None
    } else if seed_error(ws.first()) is Some {
        seed_error(ws.first())
    } else {
        batch_error(ws.drop_first())
    }
}

/// A batch as the store seeds it, ids assigned consecutively from
/// `first_id`.
pub open spec fn seeded_batch(ws: Seq<WordView>, first_id: int) -> Seq<WordView> {
    Seq::new(ws.len(), |i: int| seed_word(ws[i], first_id + i))
}

/// When a clean prefix precedes the first failing record, the batch's
/// failure is that record's failure.
proof fn lemma_batch_error_first(ws: Seq<WordView>, k: int)
    requires
        0 <= k < ws.len(),
        forall|j: int| 0 <= j < k ==> seed_error(#[trigger] ws[j]) is None,
        seed_error(ws[k]) is Some,
    ensures
        batch_error(ws) == seed_error(ws[k]),
    decreases k,
{
    if k == 0 {
    } else {
        assert(seed_error(ws.first()) is None);
        assert(forall|j: int| 0 <= j < k - 1 ==> #[trigger] ws.drop_first()[j] == ws[j + 1]);
        assert(ws.drop_first()[k - 1] == ws[k]);
        lemma_batch_error_first(ws.drop_first(), k - 1);
    }
}

/// A batch of records that all validate has no batch failure.
proof fn lemma_batch_error_none(ws: Seq<WordView>)
    requires
        forall|j: int| 0 <= j < ws.len() ==> seed_error(#[trigger] ws[j]) is None,
    ensures
        batch_error(ws) is None,
    decreases ws.len(),
{
    if ws.len() > 0 {
        assert(forall|j: int|
            0 <= j < ws.drop_first().len() ==> #[trigger] ws.drop_first()[j] == ws[j + 1]);
        lemma_batch_error_none(ws.drop_first());
    }
}

/// Validates one record for seeding; `Err` names its first failure.
fn check_seed_record(r: &WordRecord) -> (c: Result<(), StoreError>)
    ensures
        match c {
            Ok(()) => seed_error(r@) is None,
            Err(e) => seed_error(r@) == Some(e),
        },
{
    if r.expression.as_str().is_empty() || r.reading.as_str().is_empty()
        || r.meaning.as_str().is_empty() {
        return Err(StoreError::InvalidValue);
    }
    if JLPTlv::from_string(r.jlpt.as_str()).is_none() {
        return Err(StoreError::InvalidLevel);
    }
    Ok(())
}

/// Appends one seeded record and advances the id counter.
fn push_seeded(store: &mut WordStore, r: &WordRecord)
    requires
        old(store).wf(),
        seed_error(r@) is None,
        old(store).next_id < i64::MAX,
    ensures
        final(store).wf(),
        final(store)@ == old(store)@.push(seed_word(r@, old(store).next_id as int)),
        final(store).next_id == old(store).next_id + 1,
{
    let id = store.next_id;
    let w = WordRecord {
        id,
        expression: r.expression.clone(),
        reading: r.reading.clone(),
        meaning: r.meaning.clone(),
        jlpt: r.jlpt.clone(),
        practice_time: 0,
        familiar: false,
        user_mark: false,
    };
    assert(w@ == seed_word(r@, id as int));
    store.words.push(w);
    store.next_id = store.next_id + 1;
    proof {
        assert(store@ =~= old(store)@.push(seed_word(r@, id as int)));
    }
}

/// Inserts a batch atomically: ids are assigned consecutively from the
/// current counter and progress starts at its defaults; on any validation
/// failure, or if the id counter would leave the engine's integer range,
/// nothing is inserted.
#[verifier::loop_isolation(false)]
pub fn bulk_insert_words(store: &mut WordStore, records: Vec<WordRecord>) -> (r: Result<
    (),
    StoreError,
>)
    requires
        old(store).wf(),
    ensures
        final(store).wf(),
        match r {
            Ok(()) => {
                &&& batch_error(views_of(records@)) is None
                &&& old(store).next_id + records@.len() <= i64::MAX
                &&& final(store)@ == old(store)@ + seeded_batch(
                    views_of(records@),
                    old(store).next_id as int,
                )
                &&& final(store).next_id == old(store).next_id + records@.len()
            },
            Err(e) => {
                &&& *final(store) == *old(store)
                &&& match batch_error(views_of(records@)) {
                    Some(e2) => e == e2,
                    None => e == StoreError::IdOverflow && old(store).next_id + records@.len()
                        > i64::MAX,
                }
            },
        },
{
    let ghost rv = views_of(records@);
    let n = records.len();
    let mut i: usize = 0;
    while i < n
        invariant
            i <= n == records@.len(),
            rv == views_of(records@),
            forall|k: int| 0 <= k < i ==> seed_error(#[trigger] rv[k]) is None,
        decreases n - i,
    {
        match check_seed_record(&records[i]) {
            Ok(()) => {},
            Err(e) => {
                proof {
                    lemma_batch_error_first(rv, i as int);
                }
                return Err(e);
            },
        }
        i = i + 1;
    }
    proof {
        lemma_batch_error_none(rv);
    }
    if (n as u64) > ((i64::MAX - store.next_id) as u64) {
        return Err(StoreError::IdOverflow);
    }
    let ghost old_view = store@;
    let ghost old_next = store.next_id as int;
    let mut i: usize = 0;
    while i < n
        invariant
            store.wf(),
            i <= n == records@.len(),
            rv == views_of(records@),
            forall|k: int| 0 <= k < n ==> seed_error(#[trigger] rv[k]) is None,
            1 <= old_next,
            old_next + n <= i64::MAX,
            store.next_id == old_next + i,
            store@ == old_view + seeded_batch(rv.take(i as int), old_next),
        decreases n - i,
    {
        proof {
            assert(rv[i as int] == records@[i as int]@);
        }
        push_seeded(store, &records[i]);
        proof {
            assert(store@ =~= old_view + seeded_batch(rv.take(i + 1), old_next));
        }
        i = i + 1;
    }
    proof {
        assert(rv.take(n as int) =~= rv);
    }
    Ok(())
}

/// Inserts a batch of records.  In this embedded store every batch
/// insertion is one atomic step, so this behaves exactly as
/// [`bulk_insert_words`]: either all records become visible, with
/// consecutive ids and default progress, or — on any validation failure,
/// or if the id counter would leave the engine's integer range — none
/// does.
pub fn insert_words(store: &mut WordStore, records: Vec<WordRecord>) -> (r: Result<
    (),
    StoreError,
>)
    requires
        old(store).wf(),
    ensures
        final(store).wf(),
        match r {
            Ok(()) => {
                &&& batch_error(views_of(records@)) is None
                &&& old(store).next_id + records@.len() <= i64::MAX
                &&& final(store)@ == old(store)@ + seeded_batch(
                    views_of(records@),
                    old(store).next_id as int,
                )
                &&& final(store).next_id == old(store).next_id + records@.len()
            },
            Err(e) => {
                &&& *final(store) == *old(store)
                &&& match batch_error(views_of(records@)) {
                    Some(e2) => e == e2,
                    None => e == StoreError::IdOverflow && old(store).next_id + records@.len()
                        > i64::MAX,
                }
            },
        },
{
    bulk_insert_words(store, records)
}

/// Whether a record's column equals a textual value, the value being read
/// as the column's type: texts compare literally, a practice counter by
/// its numeric value, a flag by its boolean value.  No value matches the
/// id column: equality lookups never target it.
pub open spec fn field_matches(w: WordView, f: WordField, value: Seq<char>) -> bool {
    match f {
        WordField::Id => false,
        WordField::Expression => w.expression == value,
        WordField::Reading => w.reading == value,
        WordField::Meaning => w.meaning == value,
        WordField::JLPT => w.jlpt == value,
        WordField::PracticeTime => parse_count(value) == Some(w.practice_time),
        WordField::Familiar => parse_flag(value) == Some(w.familiar),
        WordField::UserMark => parse_flag(value) == Some(w.user_mark),
    }
}

/// The records whose column equals a value, in table order.
pub open spec fn matching_rows(v: Seq<WordView>, f: WordField, value: Seq<char>) -> Seq<
    WordView,
> {
    v.filter(|w: WordView| field_matches(w, f, value))
}

/// The ids of a sequence of records, in order.
pub open spec fn ids_of(v: Seq<WordView>) -> Seq<int> {
    v.map_values(|w: WordView| w.id)
}

/// A sequence of machine ids as unbounded integers.
pub open spec fn ids_as_ints(ids: Seq<i64>) -> Seq<int> {
    ids.map_values(|x: i64| x as int)
}

proof fn lemma_matching_rows_step(v: Seq<WordView>, f: WordField, value: Seq<char>, i: int)
    requires
        0 <= i < v.len(),
    ensures
        matching_rows(v.take(i + 1), f, value) == if field_matches(v[i], f, value) {
            matching_rows(v.take(i), f, value).push(v[i])
        } else {
            matching_rows(v.take(i), f, value)
        },
{
    reveal(Seq::filter);
    assert(v.take(i + 1).drop_last() =~= v.take(i));
}

/// Whether a record's column equals the value, computed on the record.
fn record_field_matches(r: &WordRecord, f: WordField, value: &str) -> (b: bool)
    ensures
        b == field_matches(r@, f, value@),
{
    match f {
        WordField::Id => false,
        WordField::Expression => str_eq(r.expression.as_str(), value),
        WordField::Reading => str_eq(r.reading.as_str(), value),
        WordField::Meaning => str_eq(r.meaning.as_str(), value),
        WordField::JLPT => str_eq(r.jlpt.as_str(), value),
        WordField::PracticeTime => match parse_count_text(value) {
            Some(n) => n == r.practice_time,
            None => false,
        },
        WordField::Familiar => match parse_flag_text(value) {
            Some(b2) => b2 == r.familiar,
            None => false,
        },
        WordField::UserMark => match parse_flag_text(value) {
            Some(b2) => b2 == r.user_mark,
            None => false,
        },
    }
}

/// Returns the ids of the records whose column equals the value, in table
/// order.  Querying by the id column itself is a usage error: the caller
/// already holds the ids and is redirected to a lookup by id.
#[verifier::loop_isolation(false)]
pub fn find_word_ids(store: &WordStore, field: WordField, value: &str) -> (r: Result<
    Vec<i64>,
    StoreError,
>)
    ensures
        match r {
            Ok(ids) => {
                &&& field != WordField::Id
                &&& ids_as_ints(ids@) == ids_of(matching_rows(store@, field, value@))
            },
            Err(e) => e == StoreError::InvalidFieldTarget && field == WordField::Id,
        },
{
    match field {
        WordField::Id => {
            return Err(StoreError::InvalidFieldTarget);
        },
        _ => {},
    }
    let mut ids: Vec<i64> = Vec::new();
    let n = store.words.len();
    let mut i: usize = 0;
    while i < n
        invariant
            i <= n == store.words@.len(),
            ids_as_ints(ids@) == ids_of(matching_rows(store@.take(i as int), field, value@)),
        decreases n - i,
    {
        let m = record_field_matches(&store.words[i], field, value);
        proof {
            lemma_matching_rows_step(store@, field, value@, i as int);
            assert(store@[i as int] == store.words@[i as int]@);
        }
        if m {
            ids.push(store.words[i].id);
        }
        proof {
            assert(ids_as_ints(ids@) =~= ids_of(matching_rows(store@.take(i + 1), field, value@)));
        }
        i = i + 1;
    }
    proof {
        assert(store@.take(n as int) =~= store@);
    }
    Ok(ids)
}

/// The records that carry one id, in table order.
pub open spec fn rows_with_id(v: Seq<WordView>, id: int) -> Seq<WordView> {
    v.filter(|w: WordView| w.id == id)
}

proof fn lemma_rows_with_id_step(v: Seq<WordView>, id: int, i: int)
    requires
        0 <= i < v.len(),
    ensures
        rows_with_id(v.take(i + 1), id) == if v[i].id == id {
            rows_with_id(v.take(i), id).push(v[i])
        } else {
            rows_with_id(v.take(i), id)
        },
{
    reveal(Seq::filter);
    assert(v.take(i + 1).drop_last() =~= v.take(i));
}

/// The records for a list of ids: for each id in turn, every record that
/// carries it.  An id that no record carries contributes nothing.
pub open spec fn records_for_ids(v: Seq<WordView>, ids: Seq<i64>) -> Seq<WordView>
    decreases ids.len(),
{
    if ids.len() == 0 {
        Seq::<WordView>::empty()
    } else {
        records_for_ids(v, ids.drop_last()) + rows_with_id(v, ids.last() as int)
    }
}

/// Looks up records by id, id by id: the result holds, for each requested
/// id in request order, the matching records in table order.  Unknown ids
/// are simply absent from the result.
#[verifier::loop_isolation(false)]
pub fn find_word_by_ids(store: &WordStore, ids: Vec<i64>) -> (r: Result<
    Vec<WordRecord>,
    StoreError,
>)
    ensures
        r is Ok,
        views_of(r.unwrap()@) == records_for_ids(store@, ids@),
{
    let mut out: Vec<WordRecord> = Vec::new();
    let m = ids.len();
    let mut j: usize = 0;
    proof {
        assert(views_of(out@) =~= records_for_ids(store@, ids@.take(0)));
    }
    while j < m
        invariant
            j <= m == ids@.len(),
            views_of(out@) == records_for_ids(store@, ids@.take(j as int)),
        decreases m - j,
    {
        let id = ids[j];
        let n = store.words.len();
        let mut i: usize = 0;
        while i < n
            invariant
                i <= n == store.words@.len(),
                views_of(out@) == records_for_ids(store@, ids@.take(j as int)) + rows_with_id(
                    store@.take(i as int),
                    id as int,
                ),
            decreases n - i,
        {
            proof {
                lemma_rows_with_id_step(store@, id as int, i as int);
            }
            if store.words[i].id == id {
                out.push(clone_record(&store.words[i]));
            }
            proof {
                assert(views_of(out@) =~= records_for_ids(store@, ids@.take(j as int))
                    + rows_with_id(store@.take(i + 1), id as int));
            }
            i = i + 1;
        }
        proof {
            assert(store@.take(n as int) =~= store@);
            assert(ids@.take(j + 1).drop_last() =~= ids@.take(j as int));
            assert(views_of(out@) =~= records_for_ids(store@, ids@.take(j + 1)));
        }
        j = j + 1;
    }
    proof {
        assert(ids@.take(m as int) =~= ids@);
    }
    Ok(out)
}

/// The records practiced at least once.
pub open spec fn practiced_rows(v: Seq<WordView>) -> Seq<WordView> {
    v.filter(|w: WordView| w.practice_time > 0)
}

/// The records marked familiar.
pub open spec fn familiar_rows(v: Seq<WordView>) -> Seq<WordView> {
    v.filter(|w: WordView| w.familiar)
}

/// The records the user marked for review.
pub open spec fn marked_rows(v: Seq<WordView>) -> Seq<WordView> {
    v.filter(|w: WordView| w.user_mark)
}

/// The records practiced at least once but not yet familiar.
pub open spec fn unfamiliar_practiced_rows(v: Seq<WordView>) -> Seq<WordView> {
    v.filter(|w: WordView| w.practice_time > 0 && !w.familiar)
}

/// The sum of all practice counters.
pub open spec fn total_practice(v: Seq<WordView>) -> int
    decreases v.len(),
{
    if v.len() == 0 {
        0
    } else {
        total_practice(v.drop_last()) + v.last().practice_time
    }
}

/// With non-negative counters, a prefix never sums to more than the whole.
proof fn lemma_total_practice_prefix_le(v: Seq<WordView>, k: int)
    requires
        forall|i: int| 0 <= i < v.len() ==> (#[trigger] v[i]).practice_time >= 0,
        0 <= k <= v.len(),
    ensures
        total_practice(v.take(k)) <= total_practice(v),
    decreases v.len(),
{
    if k == v.len() {
        assert(v.take(k) =~= v);
    } else {
        let d = v.drop_last();
        assert(forall|i: int| 0 <= i < d.len() ==> #[trigger] d[i] == v[i]);
        lemma_total_practice_prefix_le(d, k);
        assert(d.take(k) =~= v.take(k));
    }
}

/// Counts the records with `practice_time > 0`: how many distinct words
/// were practiced at all.  Zero when no record qualifies.
#[verifier::loop_isolation(false)]
pub fn count_unique_practiced_words(store: &WordStore) -> (r: Result<i64, StoreError>)
    requires
        store.wf(),
    ensures
        r is Ok,
        r.unwrap() == practiced_rows(store@).len(),
{
    proof {
        lemma_table_len_bound(store@, store.next_id as int);
    }
    let n = store.words.len();
    let mut count: i64 = 0;
    let mut i: usize = 0;
    while i < n
        invariant
            i <= n == store.words@.len(),
            count == practiced_rows(store@.take(i as int)).len(),
            count <= i,
        decreases n - i,
    {
        proof {
            assert(store@[i as int] == store.words@[i as int]@);
        }
        if store.words[i].practice_time > 0 {
            count = count + 1;
        }
        proof {
            assert(store@.take(i + 1) == store@.take(i as int).push(store@[i as int]));
        }
        i = i + 1;
    }
    proof {
        assert(store@.take(n as int) =~= store@);
    }
    Ok(count)
}

/// Sums every record's practice counter: the total number of practice
/// events.  Zero on an empty table; a sum beyond the engine's integer
/// range is a counter overflow.
#[verifier::loop_isolation(false)]
pub fn count_total_practiced_words(store: &WordStore) -> (r: Result<i64, StoreError>)
    requires
        store.wf(),
    ensures
        match r {
            Ok(t) => total_practice(store@) <= i64::MAX && t == total_practice(store@),
            Err(e) => e == StoreError::CounterOverflow && total_practice(store@) > i64::MAX,
        },
{
    let n = store.words.len();
    let mut total: i64 = 0;
    let mut i: usize = 0;
    while i < n
        invariant
            i <= n == store.words@.len(),
            total == total_practice(store@.take(i as int)),
            total >= 0,
        decreases n - i,
    {
        proof {
            assert(store@[i as int] == store.words@[i as int]@);
            assert(store@.take(i + 1) == store@.take(i as int).push(store@[i as int]));
            assert(store@.take(i + 1).drop_last() =~= store@.take(i as int));
            assert(total_practice(store@.take(i + 1)) == total + store@[i as int].practice_time);
        }
        match total.checked_add(store.words[i].practice_time) {
            Some(t) => {
                total = t;
            },
            None => {
                proof {
                    lemma_total_practice_prefix_le(store@, i + 1);
                }
                return Err(StoreError::CounterOverflow);
            },
        }
        i = i + 1;
    }
    proof {
        assert(store@.take(n as int) =~= store@);
    }
    Ok(total)
}

/// Counts the records marked familiar.  Zero when no record qualifies.
#[verifier::loop_isolation(false)]
pub fn count_total_familiar_words(store: &WordStore) -> (r: Result<i64, StoreError>)
    requires
        store.wf(),
    ensures
        r is Ok,
        r.unwrap() == familiar_rows(store@).len(),
{
    proof {
        lemma_table_len_bound(store@, store.next_id as int);
    }
    let n = store.words.len();
    let mut count: i64 = 0;
    let mut i: usize = 0;
    while i < n
        invariant
            i <= n == store.words@.len(),
            count == familiar_rows(store@.take(i as int)).len(),
            count <= i,
        decreases n - i,
    {
        proof {
            assert(store@[i as int] == store.words@[i as int]@);
        }
        if store.words[i].familiar {
            count = count + 1;
        }
        proof {
            assert(store@.take(i + 1) == store@.take(i as int).push(store@[i as int]));
        }
        i = i + 1;
    }
    proof {
        assert(store@.take(n as int) =~= store@);
    }
    Ok(count)
}

/// Counts the records the user marked for review.  Zero when no record
/// qualifies.
#[verifier::loop_isolation(false)]
pub fn count_total_user_marked_words(store: &WordStore) -> (r: Result<i64, StoreError>)
    requires
        store.wf(),
    ensures
        r is Ok,
        r.unwrap() == marked_rows(store@).len(),
{
    proof {
        lemma_table_len_bound(store@, store.next_id as int);
    }
    let n = store.words.len();
    let mut count: i64 = 0;
    let mut i: usize = 0;
    while i < n
        invariant
            i <= n == store.words@.len(),
            count == marked_rows(store@.take(i as int)).len(),
            count <= i,
        decreases n - i,
    {
        proof {
            assert(store@[i as int] == store.words@[i as int]@);
        }
        if store.words[i].user_mark {
            count = count + 1;
        }
        proof {
            assert(store@.take(i + 1) == store@.take(i as int).push(store@[i as int]));
        }
        i = i + 1;
    }
    proof {
        assert(store@.take(n as int) =~= store@);
    }
    Ok(count)
}

/// Counts the records practiced at least once but not yet familiar.  Zero
/// when no record qualifies.
#[verifier::loop_isolation(false)]
pub fn count_unfamiliar_practiced_words(store: &WordStore) -> (r: Result<i64, StoreError>)
    requires
        store.wf(),
    ensures
        r is Ok,
        r.unwrap() == unfamiliar_practiced_rows(store@).len(),
{
    proof {
        lemma_table_len_bound(store@, store.next_id as int);
    }
    let n = store.words.len();
    let mut count: i64 = 0;
    let mut i: usize = 0;
    while i < n
        invariant
            i <= n == store.words@.len(),
            count == unfamiliar_practiced_rows(store@.take(i as int)).len(),
            count <= i,
        decreases n - i,
    {
        proof {
            assert(store@[i as int] == store.words@[i as int]@);
        }
        if store.words[i].practice_time > 0 && !store.words[i].familiar {
            count = count + 1;
        }
        proof {
            assert(store@.take(i + 1) == store@.take(i as int).push(store@[i as int]));
        }
        i = i + 1;
    }
    proof {
        assert(store@.take(n as int) =~= store@);
    }
    Ok(count)
}

/// A record after one progress touch: the practice counter advanced by
/// one and both flags set to the caller's values.
pub open spec fn bump_progress(w: WordView, familiar: bool, user_mark: bool) -> WordView {
    WordView { practice_time: w.practice_time + 1, familiar: familiar, user_mark: user_mark, ..w }
}

/// A table after a progress touch keyed by id: the matching record is
/// bumped, every other record is unchanged.
pub open spec fn bumped_rows(v: Seq<WordView>, id: int, familiar: bool, user_mark: bool) -> Seq<
    WordView,
> {
    Seq::new(
        v.len(),
        |i: int|
            if v[i].id == id {
                bump_progress(v[i], familiar, user_mark)
            } else {
                v[i]
            },
    )
}

/// Advances the practice counter by one and sets both flags for the
/// record with the given id; an unknown id touches nothing and succeeds.
/// The counter leaving the engine's integer range is a counter overflow
/// and changes nothing.
#[verifier::loop_isolation(false)]
pub fn update_user_progress(
    store: &mut WordStore,
    word_id: i64,
    familiar: bool,
    user_mark: bool,
) -> (r: Result<(), StoreError>)
    requires
        old(store).wf(),
    ensures
        final(store).wf(),
        final(store).next_id == old(store).next_id,
        match r {
            Ok(()) => {
                &&& forall|i: int|
                    0 <= i < old(store)@.len() && (#[trigger] old(store)@[i]).id == word_id
                        ==> old(store)@[i].practice_time < i64::MAX
                &&& final(store)@ == bumped_rows(old(store)@, word_id as int, familiar, user_mark)
            },
            Err(e) => {
                &&& e == StoreError::CounterOverflow
                &&& exists|i: int|
                    0 <= i < old(store)@.len() && (#[trigger] old(store)@[i]).id == word_id
                        && old(store)@[i].practice_time == i64::MAX
                &&& *final(store) == *old(store)
            },
        },
{
    let n = store.words.len();
    let mut i: usize = 0;
    while i < n
        invariant
            i <= n == store.words@.len(),
            *store == *old(store),
            forall|k: int| 0 <= k < i ==> (#[trigger] store@[k]).id != word_id,
        decreases n - i,
    {
        proof {
            assert(store@[i as int] == store.words@[i as int]@);
        }
        if store.words[i].id == word_id {
            if store.words[i].practice_time == i64::MAX {
                return Err(StoreError::CounterOverflow);
            }
            let cur = &store.words[i];
            let w2 = WordRecord {
                id: cur.id,
                expression: cur.expression.clone(),
                reading: cur.reading.clone(),
                meaning: cur.meaning.clone(),
                jlpt: cur.jlpt.clone(),
                practice_time: cur.practice_time + 1,
                familiar,
                user_mark,
            };
            proof {
                assert(w2@ == bump_progress(store@[i as int], familiar, user_mark));
            }
            store.words[i] = w2;
            proof {
                assert(store@ =~= views_of(old(store).words@).update(
                    i as int,
                    bump_progress(old(store)@[i as int], familiar, user_mark),
                ));
                assert(forall|k: int|
                    0 <= k < old(store)@.len() && k != i ==> (#[trigger] old(store)@[k]).id
                        != word_id);
                assert(store@ =~= bumped_rows(old(store)@, word_id as int, familiar, user_mark));
            }
            return Ok(());
        }
        i = i + 1;
    }
    proof {
        assert(store@ =~= bumped_rows(old(store)@, word_id as int, familiar, user_mark));
    }
    Ok(())
}

/// A record with its progress back at the defaults; the identity and the
/// text columns are untouched.
pub open spec fn reset_progress(w: WordView) -> WordView {
    WordView { practice_time: 0, familiar: false, user_mark: false, ..w }
}

/// A table with every record's progress back at the defaults.
pub open spec fn reset_rows(v: Seq<WordView>) -> Seq<WordView> {
    v.map_values(|w: WordView| reset_progress(w))
}

/// Zeroes every record's progress fields unconditionally: ids, texts and
/// tiers stay, and no record is removed.  Distinct from dropping the
/// schema.
#[verifier::loop_isolation(false)]
pub fn reset_all_user_progress(store: &mut WordStore) -> (r: Result<(), StoreError>)
    requires
        old(store).wf(),
    ensures
        r is Ok,
        final(store)@ == reset_rows(old(store)@),
        final(store).next_id == old(store).next_id,
        final(store).wf(),
{
    let n = store.words.len();
    let mut i: usize = 0;
    while i < n
        invariant
            i <= n == store.words@.len() == old(store)@.len(),
            forall|k: int| 0 <= k < i ==> #[trigger] store@[k] == reset_progress(old(store)@[k]),
            forall|k: int| i <= k < n ==> #[trigger] store@[k] == old(store)@[k],
            store.next_id == old(store).next_id,
        decreases n - i,
    {
        proof {
            assert(store@[i as int] == store.words@[i as int]@);
        }
        let cur = &store.words[i];
        let w2 = WordRecord {
            id: cur.id,
            expression: cur.expression.clone(),
            reading: cur.reading.clone(),
            meaning: cur.meaning.clone(),
            jlpt: cur.jlpt.clone(),
            practice_time: 0,
            familiar: false,
            user_mark: false,
        };
        proof {
            assert(w2@ == reset_progress(old(store)@[i as int]));
        }
        let ghost prev = store@;
        store.words[i] = w2;
        proof {
            assert(store@ =~= prev.update(i as int, w2@));
            assert(forall|k: int| 0 <= k < n && k != i ==> #[trigger] store@[k] == prev[k]);
        }
        i = i + 1;
    }
    proof {
        assert(store@ =~= reset_rows(old(store)@));
        assert(wf_table(store@, store.next_id as int));
    }
    Ok(())
}

/// Whether an id stands in a list of ids.
pub open spec fn id_listed(ids: Seq<i64>, id: int) -> bool {
    exists|k: int| 0 <= k < ids.len() && ids[k] == id
}

/// Whether an id stands in a list of ids, computed on the list.
fn ids_contain(ids: &Vec<i64>, id: i64) -> (b: bool)
    ensures
        b == id_listed(ids@, id as int),
{
    let n = ids.len();
    let mut i: usize = 0;
    while i < n
        invariant
            i <= n == ids@.len(),
            forall|k: int| 0 <= k < i ==> ids@[k] != id,
        decreases n - i,
    {
        if ids[i] == id {
            return true;
        }
        i = i + 1;
    }
    false
}

/// The validation failure a value raises against a column, if any: the id
/// column is never a legal target, required texts must be non-empty, a
/// tier token must name a tier, a counter must be a decimal numeral in
/// range, a flag must be a boolean token.
pub open spec fn field_value_error(f: WordField, value: Seq<char>) -> Option<StoreError> {
    match f {
        WordField::Id => Some(StoreError::InvalidFieldTarget),
        WordField::Expression | WordField::Reading | WordField::Meaning => if value.len() == 0 {
            Some(StoreError::InvalidValue)
        } else {
            None
        },
        WordField::JLPT => if !valid_level(value) {
            Some(StoreError::InvalidLevel)
        } else {
            None
        },
        WordField::PracticeTime => if parse_count(value) is None {
            Some(StoreError::InvalidValue)
        } else {
            None
        },
        WordField::Familiar | WordField::UserMark => if parse_flag(value) is None {
            Some(StoreError::InvalidValue)
        } else {
            None
        },
    }
}

/// A record with one column set to a value, the value read as the
/// column's type.  Meaningful only for a value the column accepts.
pub open spec fn set_column(w: WordView, f: WordField, value: Seq<char>) -> WordView {
    match f {
        WordField::Id => w,
        WordField::Expression => WordView { expression: value, ..w },
        WordField::Reading => WordView { reading: value, ..w },
        WordField::Meaning => WordView { meaning: value, ..w },
        WordField::JLPT => WordView { jlpt: value, ..w },
        WordField::PracticeTime => WordView { practice_time: parse_count(value).unwrap(), ..w },
        WordField::Familiar => WordView { familiar: parse_flag(value).unwrap(), ..w },
        WordField::UserMark => WordView { user_mark: parse_flag(value).unwrap(), ..w },
    }
}

/// A table after a field-targeted bulk update: every record whose id is
/// listed has the column set, every other record is unchanged.
pub open spec fn field_updated_rows(
    v: Seq<WordView>,
    ids: Seq<i64>,
    f: WordField,
    value: Seq<char>,
) -> Seq<WordView> {
    Seq::new(
        v.len(),
        |i: int|
            if id_listed(ids, v[i].id) {
                set_column(v[i], f, value)
            } else {
                v[i]
            },
    )
}

/// Copies a record with one column set to the value.
fn set_record_column(r: &WordRecord, f: WordField, value: &str) -> (c: WordRecord)
    requires
        field_value_error(f, value@) is None,
    ensures
        c@ == set_column(r@, f, value@),
{
    let mut c = clone_record(r);
    match f {
        WordField::Id => {},
        WordField::Expression => {
            c.expression = String::from_str(value);
        },
        WordField::Reading => {
            c.reading = String::from_str(value);
        },
        WordField::Meaning => {
            c.meaning = String::from_str(value);
        },
        WordField::JLPT => {
            c.jlpt = String::from_str(value);
        },
        WordField::PracticeTime => {
            c.practice_time = parse_count_text(value).unwrap();
        },
        WordField::Familiar => {
            c.familiar = parse_flag_text(value).unwrap();
        },
        WordField::UserMark => {
            c.user_mark = parse_flag_text(value).unwrap();
        },
    }
    c
}

/// Applies one raw value to one column for every listed id.  Targeting
/// the id column is a hard validation error, as is a value the column
/// rejects; on any error no row changes.  Unknown ids touch nothing.
#[verifier::loop_isolation(false)]
pub fn update_word_field(
    store: &mut WordStore,
    ids: Vec<i64>,
    field: WordField,
    new_value: &str,
) -> (r: Result<(), StoreError>)
    requires
        old(store).wf(),
    ensures
        final(store).wf(),
        final(store).next_id == old(store).next_id,
        match r {
            Ok(()) => {
                &&& field_value_error(field, new_value@) is None
                &&& final(store)@ == field_updated_rows(old(store)@, ids@, field, new_value@)
            },
            Err(e) => {
                &&& field_value_error(field, new_value@) == Some(e)
                &&& *final(store) == *old(store)
            },
        },
{
    match field {
        WordField::Id => {
            return Err(StoreError::InvalidFieldTarget);
        },
        WordField::Expression | WordField::Reading | WordField::Meaning => {
            if new_value.is_empty() {
                return Err(StoreError::InvalidValue);
            }
        },
        WordField::JLPT => {
            if JLPTlv::from_string(new_value).is_none() {
                return Err(StoreError::InvalidLevel);
            }
        },
        WordField::PracticeTime => {
            if parse_count_text(new_value).is_none() {
                return Err(StoreError::InvalidValue);
            }
        },
        WordField::Familiar | WordField::UserMark => {
            if parse_flag_text(new_value).is_none() {
                return Err(StoreError::InvalidValue);
            }
        },
    }
    let n = store.words.len();
    let mut i: usize = 0;
    while i < n
        invariant
            i <= n == store.words@.len() == old(store)@.len(),
            field_value_error(field, new_value@) is None,
            forall|k: int|
                0 <= k < i ==> #[trigger] store@[k] == field_updated_rows(
                    old(store)@,
                    ids@,
                    field,
                    new_value@,
                )[k],
            forall|k: int| i <= k < n ==> #[trigger] store@[k] == old(store)@[k],
            store.next_id == old(store).next_id,
        decreases n - i,
    {
        proof {
            assert(store@[i as int] == store.words@[i as int]@);
        }
        if ids_contain(&ids, store.words[i].id) {
            let w2 = set_record_column(&store.words[i], field, new_value);
            let ghost prev = store@;
            store.words[i] = w2;
            proof {
                assert(store@ =~= prev.update(i as int, w2@));
                assert(forall|k: int| 0 <= k < n && k != i ==> #[trigger] store@[k] == prev[k]);
            }
        }
        i = i + 1;
    }
    proof {
        assert(store@ =~= field_updated_rows(old(store)@, ids@, field, new_value@));
        assert forall|i: int| 0 <= i < store@.len() implies wf_word(#[trigger] store@[i]) by {
            assert(wf_word(old(store)@[i]));
            match field {
                WordField::PracticeTime => {
                    lemma_digits_value_nonneg(new_value@);
                },
                _ => {},
            }
        }
        assert(wf_table(store@, store.next_id as int));
    }
    Ok(())
}

/// The records whose ids are not listed, in table order.
pub open spec fn remaining_rows(v: Seq<WordView>, ids: Seq<i64>) -> Seq<WordView> {
    v.filter(|w: WordView| !id_listed(ids, w.id))
}

proof fn lemma_remaining_rows_step(v: Seq<WordView>, ids: Seq<i64>, i: int)
    requires
        0 <= i < v.len(),
    ensures
        remaining_rows(v.take(i + 1), ids) == if !id_listed(ids, v[i].id) {
            remaining_rows(v.take(i), ids).push(v[i])
        } else {
            remaining_rows(v.take(i), ids)
        },
{
    reveal(Seq::filter);
    assert(v.take(i + 1).drop_last() =~= v.take(i));
}

/// Deleting listed records keeps the table well-formed, and every record
/// that remains already stood in the table.
proof fn lemma_remaining_rows_wf(v: Seq<WordView>, ids: Seq<i64>, next_id: int)
    requires
        wf_table(v, next_id),
    ensures
        wf_table(remaining_rows(v, ids), next_id),
        forall|i: int|
            0 <= i < remaining_rows(v, ids).len() ==> v.contains(
                #[trigger] remaining_rows(v, ids)[i],
            ),
    decreases v.len(),
{
    reveal(Seq::filter);
    if v.len() > 0 {
        let d = v.drop_last();
        assert(forall|i: int| 0 <= i < d.len() ==> #[trigger] d[i] == v[i]);
        lemma_remaining_rows_wf(d, ids, next_id);
        let fd = remaining_rows(d, ids);
        assert(forall|i: int|
            0 <= i < fd.len() ==> v.contains(#[trigger] fd[i])) by {
            assert(forall|i: int| 0 <= i < fd.len() ==> d.contains(#[trigger] fd[i]));
            assert(forall|e: WordView| d.contains(e) ==> v.contains(e));
        }
        if !id_listed(ids, v.last().id) {
            assert(remaining_rows(v, ids) == fd.push(v.last()));
            assert forall|i: int| 0 <= i < fd.len() implies #[trigger] fd[i].id < v.last().id by {
                let k = choose|k: int| 0 <= k < d.len() && d[k] == fd[i];
                assert(v[k] == fd[i]);
                assert(v[k].id < v[v.len() - 1].id);
            }
        }
    }
}

/// Removes every listed record together with its progress; unknown ids
/// remove nothing.  The id counter does not move: ids are never reused.
#[verifier::loop_isolation(false)]
pub fn delete_words(store: &mut WordStore, ids: Vec<i64>) -> (r: Result<(), StoreError>)
    requires
        old(store).wf(),
    ensures
        r is Ok,
        final(store)@ == remaining_rows(old(store)@, ids@),
        final(store).next_id == old(store).next_id,
        final(store).wf(),
{
    let mut kept: Vec<WordRecord> = Vec::new();
    let n = store.words.len();
    let mut i: usize = 0;
    while i < n
        invariant
            i <= n == store.words@.len(),
            views_of(kept@) == remaining_rows(store@.take(i as int), ids@),
        decreases n - i,
    {
        proof {
            assert(store@[i as int] == store.words@[i as int]@);
            lemma_remaining_rows_step(store@, ids@, i as int);
        }
        if !ids_contain(&ids, store.words[i].id) {
            kept.push(clone_record(&store.words[i]));
        }
        proof {
            assert(views_of(kept@) =~= remaining_rows(store@.take(i + 1), ids@));
        }
        i = i + 1;
    }
    proof {
        assert(store@.take(n as int) =~= store@);
        lemma_remaining_rows_wf(store@, ids@, store.next_id as int);
    }
    store.words = kept;
    Ok(())
}

/// Whether a record satisfies the practice-set predicates: the tier
/// matches, the practice counter has reached the threshold, and both
/// flags equal the requested values.
pub open spec fn progress_matches(
    w: WordView,
    jlpt: JLPTlv,
    practice_time: i64,
    familiar: bool,
    user_mark: bool,
) -> bool {
    &&& w.jlpt == level_token(jlpt)
    &&& w.practice_time >= practice_time
    &&& w.familiar == familiar
    &&& w.user_mark == user_mark
}

/// The records that satisfy all four practice-set predicates, in table
/// order.
pub open spec fn progress_rows(
    v: Seq<WordView>,
    jlpt: JLPTlv,
    practice_time: i64,
    familiar: bool,
    user_mark: bool,
) -> Seq<WordView> {
    v.filter(|w: WordView| progress_matches(w, jlpt, practice_time, familiar, user_mark))
}

proof fn lemma_progress_rows_step(
    v: Seq<WordView>,
    jlpt: JLPTlv,
    practice_time: i64,
    familiar: bool,
    user_mark: bool,
    i: int,
)
    requires
        0 <= i < v.len(),
    ensures
        progress_rows(v.take(i + 1), jlpt, practice_time, familiar, user_mark) == if
            progress_matches(v[i], jlpt, practice_time, familiar, user_mark) {
            progress_rows(v.take(i), jlpt, practice_time, familiar, user_mark).push(v[i])
        } else {
            progress_rows(v.take(i), jlpt, practice_time, familiar, user_mark)
        },
{
    reveal(Seq::filter);
    assert(v.take(i + 1).drop_last() =~= v.take(i));
}

/// Whether a record satisfies the practice-set predicates, computed on
/// the record.
fn record_progress_matches(
    r: &WordRecord,
    jlpt: JLPTlv,
    practice_time: i64,
    familiar: bool,
    user_mark: bool,
) -> (b: bool)
    ensures
        b == progress_matches(r@, jlpt, practice_time, familiar, user_mark),
{
    let tok = jlpt.to_string();
    str_eq(r.jlpt.as_str(), tok.as_str()) && r.practice_time >= practice_time && r.familiar
        == familiar && r.user_mark == user_mark
}

/// Selects the practice set: the records matching all four predicates, in
/// table order, truncated to at most `num` rows; with `random` set, the
/// matching records are first reordered uniformly at random, so the
/// truncation samples without replacement.  `num = 0` yields an empty
/// result.
#[verifier::loop_isolation(false)]
pub fn return_words_by_user_progress(
    store: &WordStore,
    jlpt: JLPTlv,
    practice_time: i64,
    familiar: bool,
    user_mark: bool,
    num: usize,
    random: bool,
) -> (r: Result<Vec<WordRecord>, StoreError>)
    ensures
        r is Ok,
        ({
            let sel = progress_rows(store@, jlpt, practice_time, familiar, user_mark);
            let out = views_of(r.unwrap()@);
            &&& out.len() <= num
            &&& out.len() == if num <= sel.len() {
                num as int
            } else {
                sel.len() as int
            }
            &&& !random ==> out == sel.take(out.len() as int)
            &&& random ==> out.to_multiset().subset_of(sel.to_multiset())
        }),
{
    let ghost sel = progress_rows(store@, jlpt, practice_time, familiar, user_mark);
    let mut matched: Vec<WordRecord> = Vec::new();
    let n = store.words.len();
    let mut i: usize = 0;
    while i < n
        invariant
            i <= n == store.words@.len(),
            views_of(matched@) == progress_rows(
                store@.take(i as int),
                jlpt,
                practice_time,
                familiar,
                user_mark,
            ),
        decreases n - i,
    {
        proof {
            assert(store@[i as int] == store.words@[i as int]@);
            lemma_progress_rows_step(store@, jlpt, practice_time, familiar, user_mark, i as int);
        }
        if record_progress_matches(&store.words[i], jlpt, practice_time, familiar, user_mark) {
            matched.push(clone_record(&store.words[i]));
        }
        proof {
            assert(views_of(matched@) =~= progress_rows(
                store@.take(i + 1),
                jlpt,
                practice_time,
                familiar,
                user_mark,
            ));
        }
        i = i + 1;
    }
    proof {
        assert(store@.take(n as int) =~= store@);
    }
    let mut result = if random {
        shuffle_words(matched)
    } else {
        matched
    };
    let ghost full = views_of(result@);
    if num < result.len() {
        result.truncate(num);
        proof {
            assert(views_of(result@) =~= full.take(num as int));
        }
    } else {
        proof {
            assert(views_of(result@) =~= full.take(result@.len() as int));
        }
    }
    proof {
        if random {
            let k = views_of(result@).len() as int;
            assert(full =~= full.take(k) + full.skip(k));
            vstd::seq_lib::lemma_multiset_commutative(full.take(k), full.skip(k));
            assert forall|x: WordView|
                views_of(result@).to_multiset().count(x) <= sel.to_multiset().count(
                    x,
                ) by {
                assert(full.to_multiset().count(x) == full.take(k).to_multiset().count(x)
                    + full.skip(k).to_multiset().count(x));
            }
        }
    }
    Ok(result)
}

} // verus!
