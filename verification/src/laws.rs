//! Laws of the store, stated and proved over its mathematical model.

use vstd::prelude::*;

verus! {

use crate::level::JLPTlv;
use crate::record::WordView;
use crate::select::ProgressSelect;
use crate::store::progress_rows;
use crate::store::reset_rows;
use crate::update::ProgressUpdate;

/// Idempotent defaulting: on a record whose progress stands at the
/// defaults — as every record does until its first touch — an update that
/// leaves a progress field unselected leaves that field at its default.
pub proof fn lemma_single_update_keeps_defaults(u: ProgressUpdate, w: WordView)
    requires
        w.practice_time == 0,
        !w.familiar,
        !w.user_mark,
    ensures
        u.familiar is None ==> !u.applied(w).familiar,
        u.user_mark is None ==> !u.applied(w).user_mark,
        !u.increment_practice ==> u.applied(w).practice_time == 0,
{
}

/// Atomic composite update: selecting the increment and both flags in one
/// call takes a record with default progress to practice count 1 with
/// both flags set — never a partial combination, and never another value.
pub proof fn lemma_composite_update_atomic(u: ProgressUpdate, w: WordView)
    requires
        w.practice_time == 0,
        !w.familiar,
        !w.user_mark,
        u.increment_practice,
        u.familiar == Some(true),
        u.user_mark == Some(true),
    ensures
        u.applied(w).practice_time == 1,
        u.applied(w).familiar,
        u.applied(w).user_mark,
{
}

/// A composable select with every predicate supplied returns exactly the
/// rows of the fixed practice-set query before truncation.
pub proof fn lemma_full_select_is_fixed_query(
    sel: ProgressSelect,
    v: Seq<WordView>,
    jlpt: JLPTlv,
    practice_time: i64,
    familiar: bool,
    user_mark: bool,
)
    requires
        sel.jlpt == Some(jlpt),
        sel.practice_time == Some(practice_time),
        sel.familiar == Some(familiar),
        sel.user_mark == Some(user_mark),
    ensures
        sel.selected_rows(v) == progress_rows(v, jlpt, practice_time, familiar, user_mark),
    decreases v.len(),
{
    reveal(Seq::filter);
    if v.len() > 0 {
        lemma_full_select_is_fixed_query(
            sel,
            v.drop_last(),
            jlpt,
            practice_time,
            familiar,
            user_mark,
        );
    }
}

/// Reset isolation: zeroing all progress touches only the progress
/// fields.  Ids, texts, tiers and the row count are unchanged, and every
/// progress field is back at its default.
pub proof fn lemma_reset_rows_isolated(v: Seq<WordView>)
    ensures
        reset_rows(v).len() == v.len(),
        forall|i: int|
            0 <= i < v.len() ==> {
                let w = #[trigger] reset_rows(v)[i];
                &&& w.id == v[i].id
                &&& w.expression == v[i].expression
                &&& w.reading == v[i].reading
                &&& w.meaning == v[i].meaning
                &&& w.jlpt == v[i].jlpt
                &&& w.practice_time == 0
                &&& !w.familiar
                &&& !w.user_mark
            },
{
}

} // verus!
