use wordstore::ProgressSelect;
use wordstore::ProgressUpdate;
use wordstore::StoreError;
use wordstore::WordField;
use wordstore::WordRecord;
use wordstore::WordStore;
use wordstore::JLPTlv;
use wordstore::bulk_insert_words;
use wordstore::count_total_familiar_words;
use wordstore::count_total_practiced_words;
use wordstore::count_total_user_marked_words;
use wordstore::count_unfamiliar_practiced_words;
use wordstore::count_unique_practiced_words;
use wordstore::delete_words;
use wordstore::find_word_by_ids;
use wordstore::find_word_ids;
use wordstore::insert_words;
use wordstore::reset_all_user_progress;
use wordstore::reset_database;
use wordstore::update_user_progress;
use wordstore::update_word_field;

fn make_word(expression: &str, reading: &str, meaning: &str, jlpt: &str) -> WordRecord {
    WordRecord {
        id: 0,
        expression: expression.to_string(),
        reading: reading.to_string(),
        meaning: meaning.to_string(),
        jlpt: jlpt.to_string(),
        practice_time: 0,
        familiar: false,
        user_mark: false,
    }
}

fn create_fake_data() -> Vec<WordRecord> {
    vec![
        make_word("一", "いち", "one", "n5"),
        make_word("二", "に", "two", "n5"),
        make_word("時間", "じかん", "time", "n4"),
        make_word("経済", "けいざい", "economy", "n1"),
        make_word("政治", "せいじ", "politics", "n1"),
    ]
}

#[test]
fn test_database_operations_in_sequence() {
    println!("STEP 1 & 2: Setting up the database and creating tables...");
    let mut store = WordStore::new();

    println!("STEP 3: Inserting fake data...");
    let fake_data = create_fake_data();
    bulk_insert_words(&mut store, fake_data).expect("Failed to bulk insert fake data.");

    let count = store.words.len();
    assert_eq!(count, 5);
    println!("-> Verified: 5 words inserted.");

    ProgressUpdate::new()
        .set_familiar(true)
        .set_user_mark(true)
        .increment_practice_time()
        .execute(&mut store, 2)
        .expect("Failed to update progress.");

    let word = find_word_by_ids(&store, vec![2 as i64]).expect("Failed to find word by ID.");

    println!("word = {:?}", word);
    assert_eq!(word[0].practice_time, 1 as i64);
    assert_eq!(word[0].familiar, true);
    assert_eq!(word[0].user_mark, true);
    println!("-> Verified: Progress updated correctly.");

    let unique_count =
        count_unique_practiced_words(&store).expect("Failed to count unique practiced words.");
    assert_eq!(unique_count, 1);
    println!("-> Verified: Unique practiced words count is correct: {}", unique_count);

    let total_practiced_count =
        count_total_practiced_words(&store).expect("Failed to count total practiced words.");
    assert_eq!(total_practiced_count, 1);
    println!("-> Verified: Total practiced words count is correct: {}", total_practiced_count);

    let total_familiar_count =
        count_total_familiar_words(&store).expect("Failed to count total familiar words.");
    assert_eq!(total_familiar_count, 1);
    println!("-> Verified: Total familiar words count is correct: {}", total_familiar_count);

    let total_user_marked_count =
        count_total_user_marked_words(&store).expect("Failed to count total user marked words.");
    assert_eq!(total_user_marked_count, 1);
    println!("-> Verified: Total user marked words count is correct: {}", total_user_marked_count);

    let unfamiliar_practiced_count = count_unfamiliar_practiced_words(&store)
        .expect("Failed to count unfamiliar practiced words.");
    assert_eq!(unfamiliar_practiced_count, 0);
    println!(
        "-> Verified: Unfamiliar practiced words count is correct: {}",
        unfamiliar_practiced_count
    );

    let select_result = ProgressSelect::new()
        .select_jlpt(JLPTlv::N5)
        .select_familiar(true)
        .select_user_mark(true)
        .execute(&store)
        .expect("Failed to execute progress select.");
    assert_eq!(select_result.len(), 1);
    assert_eq!(select_result[0].id, 2);
    assert_eq!(select_result[0].expression, "二");
    assert_eq!(select_result[0].familiar, true);
    assert_eq!(select_result[0].user_mark, true);
    println!("-> Verified: ProgressSelect returned correct results.");

    let select_result = ProgressSelect::new()
        .select_practice_time(1)
        .execute(&store)
        .expect("Failed to execute progress select for N1.");
    assert_eq!(select_result.len(), 1);
    println!("-> Verified: ProgressSelect returned correct results for practice time.");

    reset_all_user_progress(&mut store).expect("Failed to reset progress.");

    let word = find_word_by_ids(&store, vec![2 as i64]).expect("Failed to find word by ID.");

    assert_eq!(word[0].practice_time, 0 as i64);
    assert_eq!(word[0].familiar, false);
    assert_eq!(word[0].user_mark, false);
    println!("-> Verified: Progress reset correctly.");
}

#[test]
fn test_level_token_round_trip() {
    assert_eq!(JLPTlv::N1.to_string(), "n1");
    assert_eq!(JLPTlv::N2.to_string(), "n2");
    assert_eq!(JLPTlv::N3.to_string(), "n3");
    assert_eq!(JLPTlv::N4.to_string(), "n4");
    assert_eq!(JLPTlv::N5.to_string(), "n5");
    assert_eq!(JLPTlv::from_string("n1"), Some(JLPTlv::N1));
    assert_eq!(JLPTlv::from_string("n5"), Some(JLPTlv::N5));
    assert_eq!(JLPTlv::from_string("n6"), None);
    assert_eq!(JLPTlv::from_string(""), None);
    assert_eq!(JLPTlv::from_string("N1"), None);
}

#[test]
fn test_field_column_names() {
    assert_eq!(WordField::Id.to_string(), "id");
    assert_eq!(WordField::Expression.to_string(), "expression");
    assert_eq!(WordField::Reading.to_string(), "reading");
    assert_eq!(WordField::Meaning.to_string(), "meaning");
    assert_eq!(WordField::JLPT.to_string(), "jlpt");
    assert_eq!(WordField::PracticeTime.to_string(), "practice_time");
    assert_eq!(WordField::Familiar.to_string(), "familiar");
    assert_eq!(WordField::UserMark.to_string(), "user_mark");
    assert_eq!(wordstore::FamiliarityField::Id.to_string(), "id");
    assert_eq!(wordstore::FamiliarityField::PracticeTime.to_string(), "practice_time");
    assert_eq!(wordstore::FamiliarityField::Familiar.to_string(), "familiar");
    assert_eq!(wordstore::FamiliarityField::UserMark.to_string(), "user_mark");
}

#[test]
fn test_idempotent_defaulting_single_field() {
    let mut store = WordStore::new();
    bulk_insert_words(&mut store, create_fake_data()).unwrap();

    // A fresh record reads back with default progress.
    let word = find_word_by_ids(&store, vec![3]).unwrap();
    assert_eq!(word[0].practice_time, 0);
    assert_eq!(word[0].familiar, false);
    assert_eq!(word[0].user_mark, false);

    // Touching only one field leaves the other two at their defaults.
    ProgressUpdate::new().increment_practice_time().execute(&mut store, 3).unwrap();
    let word = find_word_by_ids(&store, vec![3]).unwrap();
    assert_eq!(word[0].practice_time, 1);
    assert_eq!(word[0].familiar, false);
    assert_eq!(word[0].user_mark, false);

    ProgressUpdate::new().set_familiar(true).execute(&mut store, 4).unwrap();
    let word = find_word_by_ids(&store, vec![4]).unwrap();
    assert_eq!(word[0].practice_time, 0);
    assert_eq!(word[0].familiar, true);
    assert_eq!(word[0].user_mark, false);
}

#[test]
fn test_no_op_update_leaves_rows_unchanged() {
    let mut store = WordStore::new();
    bulk_insert_words(&mut store, create_fake_data()).unwrap();
    ProgressUpdate::new().increment_practice_time().execute(&mut store, 1).unwrap();

    let before = find_word_by_ids(&store, vec![1, 2, 3, 4, 5]).unwrap();
    let result = ProgressUpdate::new().execute(&mut store, 1);
    assert!(result.is_ok());
    let after = find_word_by_ids(&store, vec![1, 2, 3, 4, 5]).unwrap();

    assert_eq!(before.len(), after.len());
    for (b, a) in before.iter().zip(after.iter()) {
        assert_eq!(b.id, a.id);
        assert_eq!(b.expression, a.expression);
        assert_eq!(b.practice_time, a.practice_time);
        assert_eq!(b.familiar, a.familiar);
        assert_eq!(b.user_mark, a.user_mark);
    }
}

#[test]
fn test_filter_correctness_five_seeded_words() {
    // Two at level A (n5) — one familiar, one not — one at n4, two at n3.
    let mut store = WordStore::new();
    let words = vec![
        make_word("山", "やま", "mountain", "n5"),
        make_word("川", "かわ", "river", "n5"),
        make_word("海", "うみ", "sea", "n4"),
        make_word("空", "そら", "sky", "n3"),
        make_word("森", "もり", "forest", "n3"),
    ];
    bulk_insert_words(&mut store, words).unwrap();
    // Mark the first n5 word familiar.
    ProgressUpdate::new().set_familiar(true).execute(&mut store, 1).unwrap();

    // "unfamiliar, level A, limit 2, no shuffle" returns exactly the one
    // unfamiliar level-A word.
    let result = wordstore::return_words_by_user_progress(
        &store,
        JLPTlv::N5,
        0,
        false,
        false,
        2,
        false,
    )
    .unwrap();
    assert_eq!(result.len(), 1);
    assert_eq!(result[0].id, 2);
    assert_eq!(result[0].expression, "川");
}

#[test]
fn test_aggregate_consistency_after_two_updates() {
    let mut store = WordStore::new();
    bulk_insert_words(&mut store, create_fake_data()).unwrap();

    // Word X: familiar and incremented; word Y: user-marked only.
    ProgressUpdate::new()
        .set_familiar(true)
        .increment_practice_time()
        .execute(&mut store, 1)
        .unwrap();
    ProgressUpdate::new().set_user_mark(true).execute(&mut store, 2).unwrap();

    assert_eq!(count_unique_practiced_words(&store).unwrap(), 1);
    assert_eq!(count_total_familiar_words(&store).unwrap(), 1);
    assert_eq!(count_total_user_marked_words(&store).unwrap(), 1);
    assert_eq!(count_unfamiliar_practiced_words(&store).unwrap(), 0);
}

#[test]
fn test_reset_isolation() {
    let mut store = WordStore::new();
    bulk_insert_words(&mut store, create_fake_data()).unwrap();
    ProgressUpdate::new()
        .set_familiar(true)
        .set_user_mark(true)
        .increment_practice_time()
        .execute(&mut store, 3)
        .unwrap();

    reset_all_user_progress(&mut store).unwrap();

    assert_eq!(store.words.len(), 5);
    let words = find_word_by_ids(&store, vec![1, 2, 3, 4, 5]).unwrap();
    assert_eq!(words.len(), 5);
    assert_eq!(words[2].expression, "時間");
    assert_eq!(words[2].reading, "じかん");
    assert_eq!(words[2].meaning, "time");
    assert_eq!(words[2].jlpt, "n4");
    for w in &words {
        assert_eq!(w.practice_time, 0);
        assert_eq!(w.familiar, false);
        assert_eq!(w.user_mark, false);
    }

    // Dropping the schema removes all rows, unlike the progress reset.
    reset_database(&mut store).unwrap();
    assert_eq!(store.words.len(), 0);
    assert_eq!(store.next_id, 1);
}

#[test]
fn test_field_update_rejection_of_id() {
    let mut store = WordStore::new();
    bulk_insert_words(&mut store, create_fake_data()).unwrap();
    let before = find_word_by_ids(&store, vec![1, 2, 3, 4, 5]).unwrap();

    let result = update_word_field(&mut store, vec![1, 2], WordField::Id, "9");
    assert_eq!(result, Err(StoreError::InvalidFieldTarget));

    let after = find_word_by_ids(&store, vec![1, 2, 3, 4, 5]).unwrap();
    assert_eq!(before.len(), after.len());
    for (b, a) in before.iter().zip(after.iter()) {
        assert_eq!(b.id, a.id);
        assert_eq!(b.expression, a.expression);
        assert_eq!(b.practice_time, a.practice_time);
    }
}

#[test]
fn test_update_word_field_values() {
    let mut store = WordStore::new();
    bulk_insert_words(&mut store, create_fake_data()).unwrap();

    update_word_field(&mut store, vec![1, 3], WordField::PracticeTime, "5").unwrap();
    let words = find_word_by_ids(&store, vec![1, 2, 3]).unwrap();
    assert_eq!(words[0].practice_time, 5);
    assert_eq!(words[1].practice_time, 0);
    assert_eq!(words[2].practice_time, 5);

    update_word_field(&mut store, vec![2], WordField::Familiar, "true").unwrap();
    let words = find_word_by_ids(&store, vec![2]).unwrap();
    assert_eq!(words[0].familiar, true);
    update_word_field(&mut store, vec![2], WordField::Familiar, "0").unwrap();
    let words = find_word_by_ids(&store, vec![2]).unwrap();
    assert_eq!(words[0].familiar, false);

    update_word_field(&mut store, vec![4], WordField::JLPT, "n2").unwrap();
    let words = find_word_by_ids(&store, vec![4]).unwrap();
    assert_eq!(words[0].jlpt, "n2");

    update_word_field(&mut store, vec![5], WordField::Meaning, "government").unwrap();
    let words = find_word_by_ids(&store, vec![5]).unwrap();
    assert_eq!(words[0].meaning, "government");

    // An unknown id updates nothing and is not an error.
    update_word_field(&mut store, vec![99], WordField::Meaning, "nothing").unwrap();
    assert_eq!(store.words.len(), 5);
}

#[test]
fn test_update_word_field_invalid_values() {
    let mut store = WordStore::new();
    bulk_insert_words(&mut store, create_fake_data()).unwrap();

    assert_eq!(
        update_word_field(&mut store, vec![1], WordField::PracticeTime, "abc"),
        Err(StoreError::InvalidValue)
    );
    assert_eq!(
        update_word_field(&mut store, vec![1], WordField::PracticeTime, "-3"),
        Err(StoreError::InvalidValue)
    );
    assert_eq!(
        update_word_field(&mut store, vec![1], WordField::PracticeTime, ""),
        Err(StoreError::InvalidValue)
    );
    assert_eq!(
        update_word_field(&mut store, vec![1], WordField::JLPT, "n9"),
        Err(StoreError::InvalidLevel)
    );
    assert_eq!(
        update_word_field(&mut store, vec![1], WordField::Expression, ""),
        Err(StoreError::InvalidValue)
    );
    assert_eq!(
        update_word_field(&mut store, vec![1], WordField::Familiar, "yes"),
        Err(StoreError::InvalidValue)
    );

    // Nothing changed on any of the rejected calls.
    let words = find_word_by_ids(&store, vec![1]).unwrap();
    assert_eq!(words[0].expression, "一");
    assert_eq!(words[0].jlpt, "n5");
    assert_eq!(words[0].practice_time, 0);
}

#[test]
fn test_find_word_ids_by_field() {
    let mut store = WordStore::new();
    bulk_insert_words(&mut store, create_fake_data()).unwrap();

    let ids = find_word_ids(&store, WordField::Expression, "時間").unwrap();
    assert_eq!(ids, vec![3]);

    let ids = find_word_ids(&store, WordField::JLPT, "n1").unwrap();
    assert_eq!(ids, vec![4, 5]);

    let ids = find_word_ids(&store, WordField::PracticeTime, "0").unwrap();
    assert_eq!(ids, vec![1, 2, 3, 4, 5]);

    let ids = find_word_ids(&store, WordField::Familiar, "0").unwrap();
    assert_eq!(ids, vec![1, 2, 3, 4, 5]);

    let ids = find_word_ids(&store, WordField::Meaning, "no such meaning").unwrap();
    assert_eq!(ids, Vec::<i64>::new());

    assert_eq!(
        find_word_ids(&store, WordField::Id, "1"),
        Err(StoreError::InvalidFieldTarget)
    );
}

#[test]
fn test_delete_words_cascades() {
    let mut store = WordStore::new();
    bulk_insert_words(&mut store, create_fake_data()).unwrap();
    ProgressUpdate::new().increment_practice_time().execute(&mut store, 2).unwrap();

    delete_words(&mut store, vec![2, 4]).unwrap();
    assert_eq!(store.words.len(), 3);
    let remaining = find_word_by_ids(&store, vec![1, 2, 3, 4, 5]).unwrap();
    let ids: Vec<i64> = remaining.iter().map(|w| w.id).collect();
    assert_eq!(ids, vec![1, 3, 5]);
    // The deleted word's progress went with it.
    assert_eq!(count_unique_practiced_words(&store).unwrap(), 0);

    // Ids are never reused after a delete.
    insert_words(&mut store, vec![make_word("新", "しん", "new", "n3")]).unwrap();
    let ids = find_word_ids(&store, WordField::Expression, "新").unwrap();
    assert_eq!(ids, vec![6]);
}

#[test]
fn test_bulk_insert_is_atomic_on_invalid_input() {
    let mut store = WordStore::new();
    let batch = vec![
        make_word("一", "いち", "one", "n5"),
        make_word("二", "に", "two", "badlevel"),
    ];
    assert_eq!(bulk_insert_words(&mut store, batch), Err(StoreError::InvalidLevel));
    assert_eq!(store.words.len(), 0);

    let batch = vec![
        make_word("一", "いち", "one", "n5"),
        make_word("", "に", "two", "n5"),
    ];
    assert_eq!(bulk_insert_words(&mut store, batch), Err(StoreError::InvalidValue));
    assert_eq!(store.words.len(), 0);
}

#[test]
fn test_insert_words_is_atomic_on_invalid_input() {
    let mut store = WordStore::new();
    let batch = vec![
        make_word("一", "いち", "one", "n5"),
        make_word("二", "に", "two", "badlevel"),
        make_word("三", "さん", "three", "n5"),
    ];
    // Batch insertion is all-or-none: the valid records around the bad
    // one do not become visible.
    assert_eq!(insert_words(&mut store, batch), Err(StoreError::InvalidLevel));
    assert_eq!(store.words.len(), 0);

    let batch = vec![
        make_word("一", "いち", "one", "n5"),
        make_word("三", "さん", "three", "n5"),
    ];
    insert_words(&mut store, batch).unwrap();
    assert_eq!(store.words.len(), 2);
    assert_eq!(store.words[0].id, 1);
    assert_eq!(store.words[1].id, 2);
}

#[test]
fn test_id_overflow_is_reported() {
    let mut store = WordStore { words: Vec::new(), next_id: i64::MAX };
    let batch = vec![make_word("一", "いち", "one", "n5")];
    assert_eq!(bulk_insert_words(&mut store, batch), Err(StoreError::IdOverflow));
    assert_eq!(store.words.len(), 0);

    let batch = vec![make_word("一", "いち", "one", "n5")];
    assert_eq!(insert_words(&mut store, batch), Err(StoreError::IdOverflow));
    assert_eq!(store.words.len(), 0);
}

#[test]
fn test_counter_overflow_is_reported() {
    let mut store = WordStore::new();
    bulk_insert_words(&mut store, create_fake_data()).unwrap();
    update_word_field(&mut store, vec![1], WordField::PracticeTime, "9223372036854775807")
        .unwrap();

    // Advancing a counter already at the engine's limit fails and changes
    // nothing.
    let result = ProgressUpdate::new().increment_practice_time().execute(&mut store, 1);
    assert_eq!(result, Err(StoreError::CounterOverflow));
    let words = find_word_by_ids(&store, vec![1]).unwrap();
    assert_eq!(words[0].practice_time, i64::MAX);

    assert_eq!(
        update_user_progress(&mut store, 1, true, true),
        Err(StoreError::CounterOverflow)
    );

    // Summing two counters at the limit overflows the total.
    update_word_field(&mut store, vec![2], WordField::PracticeTime, "9223372036854775807")
        .unwrap();
    assert_eq!(count_total_practiced_words(&store), Err(StoreError::CounterOverflow));
}

#[test]
fn test_update_user_progress_combined() {
    let mut store = WordStore::new();
    bulk_insert_words(&mut store, create_fake_data()).unwrap();

    update_user_progress(&mut store, 5, true, false).unwrap();
    let words = find_word_by_ids(&store, vec![5]).unwrap();
    assert_eq!(words[0].practice_time, 1);
    assert_eq!(words[0].familiar, true);
    assert_eq!(words[0].user_mark, false);

    // An unknown id touches nothing and succeeds.
    update_user_progress(&mut store, 99, true, true).unwrap();
    assert_eq!(count_total_familiar_words(&store).unwrap(), 1);
}

#[test]
fn test_progress_select_partial_predicates() {
    let mut store = WordStore::new();
    bulk_insert_words(&mut store, create_fake_data()).unwrap();
    ProgressUpdate::new().set_familiar(true).execute(&mut store, 1).unwrap();
    ProgressUpdate::new().set_familiar(true).execute(&mut store, 4).unwrap();
    ProgressUpdate::new().set_user_mark(true).execute(&mut store, 3).unwrap();

    // All familiar words, irrespective of level.
    let familiar = ProgressSelect::new().select_familiar(true).execute(&store).unwrap();
    let ids: Vec<i64> = familiar.iter().map(|w| w.id).collect();
    assert_eq!(ids, vec![1, 4]);

    // All marked words.
    let marked = ProgressSelect::new().select_user_mark(true).execute(&store).unwrap();
    assert_eq!(marked.len(), 1);
    assert_eq!(marked[0].id, 3);

    // No predicate: everything, in creation order.
    let all = ProgressSelect::new().execute(&store).unwrap();
    assert_eq!(all.len(), 5);
    assert_eq!(all[0].id, 1);
    assert_eq!(all[4].id, 5);
}

#[test]
fn test_empty_store_queries_and_aggregates() {
    let store = WordStore::new();
    assert_eq!(count_unique_practiced_words(&store).unwrap(), 0);
    assert_eq!(count_total_practiced_words(&store).unwrap(), 0);
    assert_eq!(count_total_familiar_words(&store).unwrap(), 0);
    assert_eq!(count_total_user_marked_words(&store).unwrap(), 0);
    assert_eq!(count_unfamiliar_practiced_words(&store).unwrap(), 0);

    // Absence is a normal outcome, not an error.
    let found = find_word_by_ids(&store, vec![1, 2, 3]).unwrap();
    assert_eq!(found.len(), 0);
    let ids = find_word_ids(&store, WordField::Expression, "一").unwrap();
    assert_eq!(ids.len(), 0);
    let all = ProgressSelect::new().execute(&store).unwrap();
    assert_eq!(all.len(), 0);
}
