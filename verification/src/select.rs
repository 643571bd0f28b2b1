//! The composable partial-predicate select: each practice-set predicate
//! is independently optional, and an omitted predicate filters nothing.

use vstd::prelude::*;

verus! {

use crate::error::StoreError;
use crate::level::JLPTlv;
use crate::level::level_token;
use crate::record::WordRecord;
use crate::record::WordView;
use crate::record::clone_record;
use crate::record::views_of;
use crate::store::WordStore;
use crate::text::str_eq;

/// The optional predicates of one `execute` call: a tier to match, a
/// minimum practice count, and required values of the two flags.
#[derive(Debug, Copy, Clone)]
pub struct ProgressSelect {
    pub jlpt: Option<JLPTlv>,
    pub practice_time: Option<i64>,
    pub familiar: Option<bool>,
    pub user_mark: Option<bool>,
}

impl Default for ProgressSelect {
    fn default() -> (r: Self)
        ensures
            r.jlpt is None,
            r.practice_time is None,
            r.familiar is None,
            r.user_mark is None,
    {
        ProgressSelect { jlpt: None, practice_time: None, familiar: None, user_mark: None }
    }
}

impl ProgressSelect {
    /// Whether a record passes every supplied predicate; an omitted
    /// predicate passes everything.
    pub open spec fn sel_matches(self, w: WordView) -> bool {
        &&& (self.jlpt matches Some(lv) ==> w.jlpt == level_token(lv))
        &&& (self.practice_time matches Some(t) ==> w.practice_time >= t)
        &&& (self.familiar matches Some(b) ==> w.familiar == b)
        &&& (self.user_mark matches Some(b) ==> w.user_mark == b)
    }

    /// The records passing every supplied predicate, in table order.
    pub open spec fn selected_rows(self, v: Seq<WordView>) -> Seq<WordView> {
        v.filter(|w: WordView| self.sel_matches(w))
    }

    /// Starts a select with no predicate supplied.
    pub fn new() -> (r: Self)
        ensures
            r.jlpt is None,
            r.practice_time is None,
            r.familiar is None,
            r.user_mark is None,
    {
        Self::default()
    }

    /// Requires the given tier.
    pub fn select_jlpt(self, jlpt: JLPTlv) -> (r: Self)
        ensures
            r == (ProgressSelect { jlpt: Some(jlpt), ..self }),
    {
        ProgressSelect { jlpt: Some(jlpt), ..self }
    }

    /// Requires at least the given practice count.
    pub fn select_practice_time(self, time: i64) -> (r: Self)
        ensures
            r == (ProgressSelect { practice_time: Some(time), ..self }),
    {
        ProgressSelect { practice_time: Some(time), ..self }
    }

    /// Requires the given familiarity value.
    pub fn select_familiar(self, value: bool) -> (r: Self)
        ensures
            r == (ProgressSelect { familiar: Some(value), ..self }),
    {
        ProgressSelect { familiar: Some(value), ..self }
    }

    /// Requires the given user-mark value.
    pub fn select_user_mark(self, value: bool) -> (r: Self)
        ensures
            r == (ProgressSelect { user_mark: Some(value), ..self }),
    {
        ProgressSelect { user_mark: Some(value), ..self }
    }

    /// Returns the records passing every supplied predicate, in table
    /// order.  With no predicate supplied, every record is returned; a
    /// select that matches nothing returns an empty result, not an error.
    #[verifier::loop_isolation(false)]
    pub fn execute(self, store: &WordStore) -> (r: Result<Vec<WordRecord>, StoreError>)
        ensures
            r is Ok,
            views_of(r.unwrap()@) == self.selected_rows(store@),
    {
        let mut out: Vec<WordRecord> = Vec::new();
        let n = store.words.len();
        let mut i: usize = 0;
        while i < n
            invariant
                i <= n == store.words@.len(),
                views_of(out@) == self.selected_rows(store@.take(i as int)),
            decreases n - i,
        {
            proof {
                assert(store@[i as int] == store.words@[i as int]@);
                lemma_selected_rows_step(self, store@, i as int);
            }
            if sel_record_matches(self, &store.words[i]) {
                out.push(clone_record(&store.words[i]));
            }
            proof {
                assert(views_of(out@) =~= self.selected_rows(store@.take(i + 1)));
            }
            i = i + 1;
        }
        proof {
            assert(store@.take(n as int) =~= store@);
        }
        Ok(out)
    }
}

proof fn lemma_selected_rows_step(sel: ProgressSelect, v: Seq<WordView>, i: int)
    requires
        0 <= i < v.len(),
    ensures
        sel.selected_rows(v.take(i + 1)) == if sel.sel_matches(v[i]) {
            sel.selected_rows(v.take(i)).push(v[i])
        } else {
            sel.selected_rows(v.take(i))
        },
{
    broadcast use {vstd::seq_lib::group_seq_properties, Seq::<_>::group_seq_extra};

    reveal(Seq::filter);
    assert(v.take(i + 1).drop_last() =~= v.take(i));
}

/// Whether a record passes every supplied predicate, computed on the
/// record.
fn sel_record_matches(sel: ProgressSelect, r: &WordRecord) -> (b: bool)
    ensures
        b == sel.sel_matches(r@),
{
    let jl_ok = match sel.jlpt {
        Some(lv) => {
            let tok = lv.to_string();
            str_eq(r.jlpt.as_str(), tok.as_str())
        },
        None => true,
    };
    let pt_ok = match sel.practice_time {
        Some(t) => r.practice_time >= t,
        None => true,
    };
    let fam_ok = match sel.familiar {
        Some(b2) => r.familiar == b2,
        None => true,
    };
    let um_ok = match sel.user_mark {
        Some(b2) => r.user_mark == b2,
        None => true,
    };
    jl_ok && pt_ok && fam_ok && um_ok
}

} // verus!
