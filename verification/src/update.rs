//! The composable progress update: any combination of a practice-count
//! increment, a familiarity setting and a user-mark setting, applied
//! atomically to one record.

use vstd::prelude::*;

verus! {

use crate::error::StoreError;
use crate::record::WordRecord;
use crate::record::WordView;
use crate::record::views_of;
use crate::store::WordStore;

/// The changes one `execute` call applies: an unselected field is left as
/// it stands.  An update with nothing selected is a documented no-op.
#[derive(Debug, Copy, Clone)]
pub struct ProgressUpdate {
    pub increment_practice: bool,
    pub familiar: Option<bool>,
    pub user_mark: Option<bool>,
}

impl Default for ProgressUpdate {
    fn default() -> (r: Self)
        ensures
            !r.increment_practice,
            r.familiar is None,
            r.user_mark is None,
    {
        ProgressUpdate { increment_practice: false, familiar: None, user_mark: None }
    }
}

impl ProgressUpdate {
    /// Whether no change is selected.
    pub open spec fn selected_none(self) -> bool {
        &&& !self.increment_practice
        &&& self.familiar is None
        &&& self.user_mark is None
    }

    /// A record after this update: selected fields changed, the others
    /// kept — all in the one step.
    pub open spec fn applied(self, w: WordView) -> WordView {
        WordView {
            practice_time: if self.increment_practice {
                w.practice_time + 1
            } else {
                w.practice_time
            },
            familiar: match self.familiar {
                Some(b) => b,
                None => w.familiar,
            },
            user_mark: match self.user_mark {
                Some(b) => b,
                None => w.user_mark,
            },
            ..w
        }
    }

    /// A table after this update keyed by id: the matching record gets
    /// all selected changes at once, every other record is unchanged.
    pub open spec fn applied_rows(self, v: Seq<WordView>, id: int) -> Seq<WordView> {
        Seq::new(
            v.len(),
            |i: int|
                if v[i].id == id {
                    self.applied(v[i])
                } else {
                    v[i]
                },
        )
    }

    /// Starts an empty update operation.
    pub fn new() -> (r: Self)
        ensures
            r.selected_none(),
    {
        Self::default()
    }

    /// Selects an explicit familiarity value.
    pub fn set_familiar(self, value: bool) -> (r: Self)
        ensures
            r == (ProgressUpdate { familiar: Some(value), ..self }),
    {
        ProgressUpdate { familiar: Some(value), ..self }
    }

    /// Selects an explicit user-mark value.
    pub fn set_user_mark(self, value: bool) -> (r: Self)
        ensures
            r == (ProgressUpdate { user_mark: Some(value), ..self }),
    {
        ProgressUpdate { user_mark: Some(value), ..self }
    }

    /// Selects a practice-count increment by one.
    pub fn increment_practice_time(self) -> (r: Self)
        ensures
            r == (ProgressUpdate { increment_practice: true, ..self }),
    {
        ProgressUpdate { increment_practice: true, ..self }
    }

    /// Applies the selected changes to the record with the given id, as
    /// one atomic step: either every selected field changes or none does.
    /// An unknown id touches nothing and succeeds; an update with nothing
    /// selected is a no-op and succeeds; advancing a counter already at
    /// the engine's integer limit is a counter overflow and changes
    /// nothing.
    #[verifier::loop_isolation(false)]
    pub fn execute(self, store: &mut WordStore, word_id: i64) -> (r: Result<(), StoreError>)
        requires
            old(store).wf(),
        ensures
            final(store).wf(),
            final(store).next_id == old(store).next_id,
            self.selected_none() ==> r is Ok && *final(store) == *old(store),
            match r {
                Ok(()) => {
                    &&& (self.increment_practice ==> forall|i: int|
                        0 <= i < old(store)@.len() && (#[trigger] old(store)@[i]).id == word_id
                            ==> old(store)@[i].practice_time < i64::MAX)
                    &&& final(store)@ == self.applied_rows(old(store)@, word_id as int)
                },
                Err(e) => {
                    &&& e == StoreError::CounterOverflow
                    &&& self.increment_practice
                    &&& exists|i: int|
                        0 <= i < old(store)@.len() && (#[trigger] old(store)@[i]).id == word_id
                            && old(store)@[i].practice_time == i64::MAX
                    &&& *final(store) == *old(store)
                },
            },
    {
        if !self.increment_practice && self.familiar.is_none() && self.user_mark.is_none() {
            proof {
                assert(store@ =~= self.applied_rows(old(store)@, word_id as int));
            }
            return Ok(());
        }
        let n = store.words.len();
        let mut i: usize = 0;
        while i < n
            invariant
                i <= n == store.words@.len(),
                *store == *old(store),
                forall|k: int| 0 <= k < i ==> (#[trigger] store@[k]).id != word_id,
            decreases n - i,
        {
            proof {
                assert(store@[i as int] == store.words@[i as int]@);
            }
            if store.words[i].id == word_id {
                if self.increment_practice && store.words[i].practice_time == i64::MAX {
                    return Err(StoreError::CounterOverflow);
                }
                let cur = &store.words[i];
                let w2 = WordRecord {
                    id: cur.id,
                    expression: cur.expression.clone(),
                    reading: cur.reading.clone(),
                    meaning: cur.meaning.clone(),
                    jlpt: cur.jlpt.clone(),
                    practice_time: if self.increment_practice {
                        cur.practice_time + 1
                    } else {
                        cur.practice_time
                    },
                    familiar: match self.familiar {
                        Some(b) => b,
                        None => cur.familiar,
                    },
                    user_mark: match self.user_mark {
                        Some(b) => b,
                        None => cur.user_mark,
                    },
                };
                proof {
                    assert(w2@ == self.applied(store@[i as int]));
                }
                store.words[i] = w2;
                proof {
                    assert(store@ =~= views_of(old(store).words@).update(
                        i as int,
                        self.applied(old(store)@[i as int]),
                    ));
                    assert(forall|k: int|
                        0 <= k < old(store)@.len() && k != i ==> (#[trigger] old(store)@[k]).id
                            != word_id);
                    assert(store@ =~= self.applied_rows(old(store)@, word_id as int));
                }
                return Ok(());
            }
            i = i + 1;
        }
        proof {
            assert(store@ =~= self.applied_rows(old(store)@, word_id as int));
        }
        Ok(())
    }
}

} // verus!
