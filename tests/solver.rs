use wordle_solver::{
    Letter, SolveError, Step, Word, apply, candidates, count_eliminated, coverage_score,
    feedback_constraints, frequency_guess, get_result, known_positions, next_guess, parse_feedback, score, simulate_feedback, solver_step, word_contains,
    word_from_str, word_to_str, word_valid,
};

fn dict(words: &[&str]) -> Vec<Word> {
    words.iter().map(|w| word_from_str(w)).collect()
}

fn strs(words: &[Word]) -> Vec<String> {
    words.iter().map(word_to_str).collect()
}

fn fb(guess: &str, answer: &str) -> String {
    simulate_feedback(&word_from_str(guess), &word_from_str(answer)).into_iter().collect()
}

#[test]
fn word_round_trip() {
    let w = word_from_str("apple");
    assert_eq!(w, ['a', 'p', 'p', 'l', 'e']);
    assert_eq!(word_to_str(&w), "apple");
}

#[test]
fn word_truncates_and_pads() {
    assert_eq!(word_from_str("applesauce"), ['a', 'p', 'p', 'l', 'e']);
    assert_eq!(word_from_str("ab"), ['a', 'b', '\0', '\0', '\0']);
    assert_eq!(word_from_str(""), ['\0'; 5]);
}

#[test]
fn word_contains_letters() {
    let w = word_from_str("angle");
    assert!(word_contains(&w, 'g'));
    assert!(word_contains(&w, 'e'));
    assert!(!word_contains(&w, 'p'));
}

#[test]
fn simulated_feedback_plain() {
    assert_eq!(fb("apple", "angle"), "cwwcc");
    assert_eq!(fb("angle", "angle"), "ccccc");
    assert_eq!(fb("crane", "table"), "wwxwc");
}

#[test]
fn simulated_feedback_duplicates() {
    assert_eq!(fb("speed", "abide"), "wwxwx");
    assert_eq!(fb("eerie", "there"), "xwxwc");
}

#[test]
fn feedback_symbols_to_constraints() {
    let g = word_from_str("apple");
    let cs = feedback_constraints(&g, &vec!['c', 'x', 'w']);
    assert_eq!(
        cs,
        vec![Letter::YesAt('a', 0), Letter::NotAt('p', 1), Letter::Yes('p'), Letter::Not('p')]
    );
}

#[test]
fn unrecognized_symbol_is_skipped() {
    let g = word_from_str("abcde");
    let cs = parse_feedback(&g, "c?xcw");
    assert_eq!(
        cs,
        vec![
            Letter::YesAt('a', 0),
            Letter::NotAt('c', 2),
            Letter::Yes('c'),
            Letter::YesAt('d', 3),
            Letter::Not('e'),
        ]
    );
}

#[test]
fn feedback_line_past_five_symbols_ignored() {
    let g = word_from_str("abcde");
    assert_eq!(parse_feedback(&g, "wwwww\n"), parse_feedback(&g, "wwwww"));
    assert_eq!(parse_feedback(&g, "cccccccc").len(), 5);
    assert_eq!(parse_feedback(&g, ""), vec![]);
}

#[test]
fn get_result_matches_feedback() {
    let g = word_from_str("apple");
    let a = word_from_str("angle");
    let cs = get_result(&g, &a);
    assert_eq!(
        cs,
        vec![
            Letter::YesAt('a', 0),
            Letter::Not('p'),
            Letter::Not('p'),
            Letter::YesAt('l', 3),
            Letter::YesAt('e', 4),
        ]
    );
}

#[test]
fn word_valid_each_kind() {
    let w = word_from_str("angle");
    assert!(word_valid(&w, &vec![]));
    assert!(word_valid(&w, &vec![Letter::Not('p')]));
    assert!(!word_valid(&w, &vec![Letter::Not('g')]));
    assert!(word_valid(&w, &vec![Letter::NotAt('g', 0)]));
    assert!(!word_valid(&w, &vec![Letter::NotAt('g', 2)]));
    assert!(word_valid(&w, &vec![Letter::Yes('n')]));
    assert!(!word_valid(&w, &vec![Letter::Yes('z')]));
    assert!(word_valid(&w, &vec![Letter::YesAt('n', 1)]));
    assert!(!word_valid(&w, &vec![Letter::YesAt('n', 2)]));
    assert!(!word_valid(&w, &vec![Letter::Yes('n'), Letter::Not('a')]));
}

#[test]
fn apply_appends_batch() {
    let mut store = vec![Letter::Not('z')];
    apply(&mut store, &vec![Letter::YesAt('a', 0), Letter::Yes('b')]);
    assert_eq!(store, vec![Letter::Not('z'), Letter::YesAt('a', 0), Letter::Yes('b')]);
}

#[test]
fn candidates_keep_order() {
    let dic = dict(&["apple", "angle", "table", "crane"]);
    let c = candidates(&dic, &vec![Letter::Yes('l')]);
    assert_eq!(strs(&c), vec!["apple", "angle", "table"]);
    assert_eq!(candidates(&dic, &vec![]).len(), 4);
}

#[test]
fn adding_constraints_only_removes_candidates() {
    let dic = dict(&["apple", "angle", "table", "crane", "slate"]);
    let mut store = vec![];
    let mut before = candidates(&dic, &store);
    for batch in [
        vec![Letter::Yes('e')],
        vec![Letter::Not('p')],
        vec![Letter::YesAt('a', 2)],
    ] {
        apply(&mut store, &batch);
        let after = candidates(&dic, &store);
        assert!(after.iter().all(|w| before.contains(w)));
        assert!(after.len() <= before.len());
        before = after;
    }
    assert_eq!(strs(&before), vec!["crane", "slate"]);
}

#[test]
fn answer_survives_honest_feedback() {
    let dic = dict(&["crane", "slate", "trace", "brace", "grace", "eerie", "there"]);
    for answer in dic.clone() {
        let mut store = vec![];
        for guess in ["tares", "grace", "other", "plumb"] {
            let batch = get_result(&word_from_str(guess), &answer);
            apply(&mut store, &batch);
            assert!(candidates(&dic, &store).contains(&answer));
        }
    }
}

#[test]
fn surplus_letter_can_rule_out_answer() {
    let answer = word_from_str("abide");
    let store = get_result(&word_from_str("speed"), &answer);
    assert!(store.contains(&Letter::Not('e')));
    assert!(!word_valid(&answer, &store));
}

#[test]
fn refiltering_is_idempotent() {
    let dic = dict(&["apple", "angle", "table", "crane", "slate"]);
    let store = vec![Letter::Yes('a'), Letter::Not('p')];
    let once = candidates(&dic, &store);
    let twice = candidates(&dic, &store);
    assert_eq!(once, twice);
    assert_eq!(candidates(&once, &store), once);
}

#[test]
fn eliminated_and_score_values() {
    let dic = dict(&["apple", "angle", "table"]);
    assert_eq!(count_eliminated(&vec![Letter::Yes('n')], &dic), 2);
    assert_eq!(score(&word_from_str("apple"), &dict(&["apple", "angle"])), 2);
    assert_eq!(score(&word_from_str("apple"), &dic), 6);
    assert_eq!(score(&word_from_str("table"), &dic), 4);
    assert_eq!(score(&word_from_str("apple"), &vec![]), 0);
}

#[test]
fn scoring_picks_deterministically() {
    let dic = dict(&["apple", "angle", "table"]);
    let store = vec![Letter::Not('z')];
    let first = next_guess(&dic, &store).unwrap();
    let second = next_guess(&dic, &store).unwrap();
    assert_eq!(first, second);
    assert_eq!(word_to_str(&first), "apple");
    let dic = dict(&["crane", "slate", "trace", "brace", "grace"]);
    assert_eq!(word_to_str(&next_guess(&dic, &store).unwrap()), "trace");
}

#[test]
fn opening_guess_without_constraints() {
    let dic = dict(&["apple", "angle", "table"]);
    assert_eq!(word_to_str(&next_guess(&dic, &vec![]).unwrap()), "tares");
    match solver_step(&dic, &vec![]) {
        Ok(Step::Guess(g)) => assert_eq!(word_to_str(&g), "tares"),
        other => panic!("unexpected {:?}", other),
    }
}

#[test]
fn few_candidates_give_first() {
    let dic = dict(&["apple", "angle"]);
    assert_eq!(word_to_str(&next_guess(&dic, &vec![]).unwrap()), "apple");
    assert_eq!(next_guess(&vec![], &vec![Letter::Not('a')]), None);
    assert_eq!(next_guess(&dic, &vec![Letter::Not('a')]), None);
}

#[test]
fn two_words_solved_by_feedback() {
    let dic = dict(&["apple", "angle"]);
    let mut store = vec![];
    let guess = match solver_step(&dic, &store) {
        Ok(Step::Guess(g)) => g,
        other => panic!("unexpected {:?}", other),
    };
    assert_eq!(word_to_str(&guess), "apple");
    apply(&mut store, &get_result(&guess, &word_from_str("angle")));
    assert_eq!(strs(&candidates(&dic, &store)), vec!["angle"]);
    match solver_step(&dic, &store) {
        Ok(Step::Solved(w)) => assert_eq!(word_to_str(&w), "angle"),
        other => panic!("unexpected {:?}", other),
    }
}

#[test]
fn contradiction_reports_no_candidates() {
    let dic = dict(&["apple", "angle", "table", "crane"]);
    let mut store = vec![];
    apply(&mut store, &vec![Letter::Not('a')]);
    apply(&mut store, &vec![Letter::YesAt('a', 0)]);
    assert!(candidates(&dic, &store).is_empty());
    assert!(matches!(solver_step(&dic, &store), Err(SolveError::NoCandidates)));
    assert!(matches!(solver_step(&vec![], &vec![]), Err(SolveError::NoCandidates)));
}

#[test]
fn solver_session_reaches_answer() {
    let dic = dict(&["crane", "slate", "trace", "brace", "grace", "table", "angle"]);
    for answer in dic.clone() {
        let mut store = vec![];
        let mut rounds = 0;
        loop {
            match solver_step(&dic, &store).unwrap() {
                Step::Solved(w) => {
                    assert_eq!(w, answer);
                    break;
                }
                Step::Guess(g) => {
                    apply(&mut store, &get_result(&g, &answer));
                }
            }
            rounds += 1;
            assert!(rounds <= dic.len() + 1);
        }
    }
}

#[test]
fn known_position_mask() {
    let store = vec![
        Letter::YesAt('a', 0),
        Letter::Not('z'),
        Letter::YesAt('e', 4),
        Letter::NotAt('b', 2),
        Letter::Yes('c'),
    ];
    assert_eq!(known_positions(&store), [true, false, false, false, true]);
    assert_eq!(known_positions(&vec![]), [false; 5]);
}

#[test]
fn coverage_counts_distinct_letters_at_open_positions() {
    let c = dict(&["apple", "angle", "table"]);
    let open = [false; 5];
    assert_eq!(coverage_score(&word_from_str("apple"), &c, &open), 11);
    assert_eq!(coverage_score(&word_from_str("table"), &c, &open), 11);
    assert_eq!(coverage_score(&word_from_str("eagle"), &c, &open), 10);
    assert_eq!(coverage_score(&word_from_str("tares"), &c, &open), 7);
    let mask = [true, false, false, false, true];
    assert_eq!(coverage_score(&word_from_str("apple"), &c, &mask), 6);
    assert_eq!(coverage_score(&word_from_str("table"), &c, &mask), 5);
    assert_eq!(coverage_score(&word_from_str("apple"), &vec![], &open), 0);
}

#[test]
fn frequency_guess_picks_highest_coverage() {
    let dic = dict(&["crane", "slate", "trace", "brace", "grace", "table"]);
    let g = frequency_guess(&dic, &vec![Letter::YesAt('e', 4)]).unwrap();
    assert_eq!(word_to_str(&g), "trace");
    let dic = dict(&["apple", "angle", "table"]);
    assert_eq!(word_to_str(&frequency_guess(&dic, &vec![]).unwrap()), "apple");
    assert_eq!(frequency_guess(&dic, &vec![Letter::Not('e')]), None);
}
