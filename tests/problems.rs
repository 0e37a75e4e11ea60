use kana_trainer::problem_manager::problem::problems::CorpusError;
use kana_trainer::problem_manager::problem::Problem;
use kana_trainer::problem_manager::problem::IMPORTANCE_SCALE;
use kana_trainer::problem_manager::ProblemManager;

#[test]
fn three_line_corpus_end_to_end() {
    let mut v = Problem::all_new("a -- 1\nb -- 2\nc -- 3").unwrap();
    assert_eq!(3, v.len());
    for (i, p) in v.iter().enumerate() {
        assert_eq!(i, p.get_id());
        assert_eq!(IMPORTANCE_SCALE / 3, p.get_p());
        assert!((p.get_p() as f64 / IMPORTANCE_SCALE as f64 - 1.0 / 3.0).abs() < 1e-9);
        assert!(p.is_new());
    }
    assert_eq!("a", v[0].get_from());
    assert_eq!("1", v[0].get_to());
    assert_eq!("c", v[2].get_from());
    assert_eq!("3", v[2].get_to());

    // a at about 0.2, c at about 0.5
    for o in [true, true, false, false] {
        v[0].record_outcome(o);
    }
    v[2].record_outcome(true);
    assert_eq!(48, v[0].get_player_p());
    assert_eq!(128, v[2].get_player_p());

    let mut m = ProblemManager::new(v, false, &mut rand::thread_rng());
    // first exposure of b: not correct, moved to the front
    assert_eq!((false, 0), m.record_answer(1, true));
    assert_eq!("b", m.get_problem(0).get_from());
    // correct answer on the front card: it comes to rest just before c
    assert_eq!((true, 1), m.record_answer(0, true));
    assert_eq!("a", m.get_problem(0).get_from());
    assert_eq!("b", m.get_problem(1).get_from());
    assert_eq!("c", m.get_problem(2).get_from());
}

#[test]
fn correct_answer_settles_before_stronger_card_from_corpus() {
    let mut v = Problem::all_new("a -- 1\nb -- 2\nc -- 3\nd -- 4").unwrap();
    // b: 32, c: 64, d: 224
    for o in [true, false, false] {
        v[1].record_outcome(o);
    }
    for o in [true, false] {
        v[2].record_outcome(o);
    }
    for o in [true, true, true] {
        v[3].record_outcome(o);
    }
    // a: seen once, then answered correctly: 192
    v[0].record_outcome(true);
    let mut m = ProblemManager::new(v, false, &mut rand::thread_rng());
    assert_eq!((true, 2), m.record_answer(0, true));
    let order: Vec<&str> = (0..4).map(|i| m.get_problem(i).get_from()).collect();
    assert_eq!(vec!["b", "c", "a", "d"], order);
}

#[test]
fn line_without_separator_is_rejected() {
    let r = Problem::all_new("a -- 1\nb\nc -- 3");
    assert_eq!(CorpusError { line: 2, fields: 1 }, r.unwrap_err());
}

#[test]
fn line_with_three_fields_is_rejected() {
    let r = Problem::all_new("a -- 1 -- x\n");
    assert_eq!(CorpusError { line: 1, fields: 3 }, r.unwrap_err());
}

#[test]
fn blank_lines_are_skipped_but_counted() {
    let r = Problem::all_new("\n\na -- 1\n\nb -- 2 -- 3\n");
    assert_eq!(CorpusError { line: 5, fields: 3 }, r.unwrap_err());
    let v = Problem::all_new("\n\na -- 1\n\nb -- 2\n\n").unwrap();
    assert_eq!(2, v.len());
    assert_eq!(1, v[1].get_id());
    assert_eq!("b", v[1].get_from());
    assert_eq!(IMPORTANCE_SCALE / 2, v[1].get_p());
}

#[test]
fn carriage_returns_before_line_feeds_are_dropped() {
    let v = Problem::all_new("a -- 1\r\nb -- 2\r\n").unwrap();
    assert_eq!(2, v.len());
    assert_eq!("1", v[0].get_to());
    assert_eq!("2", v[1].get_to());
}

#[test]
fn empty_corpus_loads_nothing() {
    assert_eq!(0, Problem::all_new("").unwrap().len());
    assert_eq!(0, Problem::all_new("\n\n").unwrap().len());
}

#[test]
fn single_card_has_full_importance() {
    let v = Problem::all_new("か -- ka").unwrap();
    assert_eq!(1, v.len());
    assert_eq!("か", v[0].get_from());
    assert_eq!("ka", v[0].get_to());
    assert_eq!(IMPORTANCE_SCALE, v[0].get_p());
}

#[test]
fn separator_needs_spaces_on_both_sides() {
    let r = Problem::all_new("a--1");
    assert_eq!(CorpusError { line: 1, fields: 1 }, r.unwrap_err());
    let v = Problem::all_new("a -- ").unwrap();
    assert_eq!("a", v[0].get_from());
    assert_eq!("", v[0].get_to());
}
