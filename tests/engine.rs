use scrolling_window_pattern_matcher::{
    next_position, ElementSettings, ExtractorAction, ExtractorError, Matcher, MatcherError, Pattern,
    PatternElement, PatternSettings,
};
use std::cell::RefCell;
use std::rc::Rc;

fn repeat(min: usize, max: usize, greedy: bool) -> ElementSettings<()> {
    ElementSettings { min_repeat: min, max_repeat: max, greedy, ..ElementSettings::new() }
}

#[test]
fn single_exact_element_returns_item_and_resets() {
    let mut m = Matcher::<i32, ()>::new(4);
    m.add_pattern(PatternElement::exact(7));
    assert_eq!(m.process_item(7).unwrap(), Some(7));
    assert_eq!(m.current_position(), 0);
    assert_eq!(m.process_item(8).unwrap(), None);
    assert_eq!(m.current_position(), 0);
}

#[test]
fn chain_completes_twice_without_reset() {
    let mut m = Matcher::<i32, ()>::new(4);
    m.add_pattern(PatternElement::exact(1));
    m.add_pattern(PatternElement::exact(2));
    m.add_pattern(PatternElement::exact(3));
    for _ in 0..2 {
        assert_eq!(m.process_item(1).unwrap(), None);
        assert_eq!(m.process_item(2).unwrap(), None);
        assert_eq!(m.process_item(3).unwrap(), Some(3));
    }
    assert_eq!(m.total_processed(), 6);
}

#[test]
fn optional_element_may_be_skipped_but_tail_is_required() {
    let mut m = Matcher::<i32, ()>::new(4);
    m.add_pattern(PatternElement::exact(1));
    m.add_pattern(PatternElement::exact_with_settings(2, ElementSettings { optional: true, ..ElementSettings::new() }));
    m.add_pattern(PatternElement::exact(3));
    assert_eq!(m.process_items(vec![1, 2, 3]).unwrap(), vec![3]);
    assert_eq!(m.process_items(vec![1, 3]).unwrap(), vec![3]);
    assert_eq!(m.process_items(vec![1, 4]).unwrap(), Vec::<i32>::new());
    assert_eq!(m.current_position(), 0);
}

#[test]
fn greedy_quantifier_takes_four_lazy_takes_two() {
    let data = [1, 1, 1, 1, 2];
    let greedy = PatternElement::exact_with_settings(1, repeat(2, 4, true));
    assert_eq!(greedy.match_at(&data, 0), Some(4));
    let lazy = PatternElement::exact_with_settings(1, repeat(2, 4, false));
    assert_eq!(lazy.match_at(&data, 0), Some(2));
}

#[test]
fn quantifier_fails_below_minimum() {
    let data = [1, 2, 1, 1];
    let el = PatternElement::exact_with_settings(1, repeat(2, 3, true));
    assert_eq!(el.match_at(&data, 0), None);
    assert_eq!(el.match_at(&data, 2), Some(2));
    assert_eq!(el.match_at(&data, 4), None);
}

#[test]
fn negative_assertion_consumes_nothing() {
    let data = [5, 6];
    let el = PatternElement::exact_with_settings(5, repeat(0, 0, true));
    assert_eq!(el.match_at(&data, 0), None);
    assert_eq!(el.match_at(&data, 1), Some(0));
    assert_eq!(el.match_at(&data, 2), Some(0));
    let impossible = PatternElement::exact_with_settings(5, repeat(1, 0, true));
    assert_eq!(impossible.match_at(&data, 1), None);
}

#[test]
fn wildcard_and_range_elements() {
    let w: PatternElement<i32, ()> = PatternElement::wildcard();
    assert_eq!(w.matches(&-3), Ok(true));
    let r: PatternElement<i32, ()> = PatternElement::range(1, 5);
    assert_eq!(r.matches(&1), Ok(true));
    assert_eq!(r.matches(&5), Ok(true));
    assert_eq!(r.matches(&6), Ok(false));
    let e: PatternElement<i32, ()> = PatternElement::exact(2);
    assert_eq!(e.settings().min_repeat, 1);
    assert_eq!(e.settings().max_repeat, 1);
    assert!(e.settings().greedy);
}

#[test]
fn extract_doubles_current_item() {
    let mut m = Matcher::<i32, ()>::new(4);
    m.register_extractor(9, |state| Ok(ExtractorAction::Extract(state.current_item * 2)));
    m.add_pattern(PatternElement::exact_with_settings(5, ElementSettings { extractor_id: Some(9), ..ElementSettings::new() }));
    assert_eq!(m.process_item(5).unwrap(), Some(10));
    assert_eq!(m.current_position(), 0);
}

#[test]
fn later_registration_replaces_extractor() {
    let mut m = Matcher::<i32, ()>::new(4);
    m.register_extractor(1, |state| Ok(ExtractorAction::Extract(state.current_item + 1)));
    m.register_extractor(1, |state| Ok(ExtractorAction::Extract(state.current_item + 2)));
    m.add_pattern(PatternElement::exact_with_settings(5, ElementSettings { extractor_id: Some(1), ..ElementSettings::new() }));
    assert_eq!(m.process_item(5).unwrap(), Some(7));
}

#[test]
fn chain_extractor_removing_missing_pattern_fails() {
    let mut m = Matcher::<i32, ()>::new(4);
    m.register_extractor(1, |_| Ok(ExtractorAction::RemovePattern("missing".to_string())));
    m.add_pattern(PatternElement::exact_with_settings(5, ElementSettings { extractor_id: Some(1), ..ElementSettings::new() }));
    assert_eq!(m.process_item(5), Err(MatcherError::PatternNotFound("missing".to_string())));
}

#[test]
fn chain_extractor_adds_named_pattern() {
    let mut m = Matcher::<i32, ()>::new(4);
    m.register_extractor(1, |_| {
        Ok(ExtractorAction::AddPattern("added".to_string(), Pattern::new(vec![PatternElement::exact(1)])))
    });
    m.add_pattern(PatternElement::exact_with_settings(5, ElementSettings { extractor_id: Some(1), ..ElementSettings::new() }));
    assert_eq!(m.process_item(5).unwrap(), Some(5));
    assert_eq!(m.named_pattern_count(), 1);
    assert!(m.remove_pattern("added").is_some());
    assert_eq!(m.named_pattern_count(), 0);
}

#[test]
fn chain_extractor_error_is_reported() {
    let mut m = Matcher::<i32, ()>::new(4);
    m.register_extractor(1, |_| Err(ExtractorError::InvalidConfiguration("bad".to_string())));
    m.add_pattern(PatternElement::exact_with_settings(5, ElementSettings { extractor_id: Some(1), ..ElementSettings::new() }));
    let err = m.process_item(5).unwrap_err();
    assert_eq!(err, MatcherError::ExtractorFailed(ExtractorError::InvalidConfiguration("bad".to_string())));
    if let MatcherError::ExtractorFailed(e) = err {
        assert_eq!(e.message(), "bad");
    }
}

#[test]
fn process_items_on_empty_chain_and_empty_input() {
    let mut m = Matcher::<i32, ()>::new(4);
    assert_eq!(m.process_items(vec![]).unwrap(), Vec::<i32>::new());
    assert_eq!(m.process_items(vec![1]), Err(MatcherError::NoPatterns));
    assert_eq!(m.total_processed(), 0);
}

#[test]
fn run_on_empty_and_non_matching_input_has_no_effect() {
    let calls = Rc::new(RefCell::new(0));
    let seen = calls.clone();
    let mut m = Matcher::<i32, ()>::new(4);
    m.register_extractor(1, move |_| {
        *seen.borrow_mut() += 1;
        Ok(ExtractorAction::Continue)
    });
    let p = Pattern::with_settings(
        vec![PatternElement::exact(9), PatternElement::exact(8)],
        PatternSettings { priority: 0, extractor_id: Some(1) },
    );
    assert_eq!(m.add_named_pattern("nine_eight".to_string(), p), Ok(()));
    assert_eq!(m.run(&[]), Ok(()));
    assert_eq!(m.run(&[1, 2, 9, 3, 8]), Ok(()));
    assert_eq!(*calls.borrow(), 0);
    assert_eq!(m.named_pattern_count(), 1);
}

#[test]
fn run_calls_pattern_extractor_once_per_match() {
    let hits = Rc::new(RefCell::new(Vec::new()));
    let log = hits.clone();
    let mut m = Matcher::<i32, ()>::new(4);
    m.register_extractor(1, move |state| {
        log.borrow_mut().push((state.position, state.matched_items.clone()));
        Ok(ExtractorAction::Continue)
    });
    let p = Pattern::with_settings(
        vec![PatternElement::exact_with_settings(2, repeat(1, 3, true)), PatternElement::exact(3)],
        PatternSettings { priority: 0, extractor_id: Some(1) },
    );
    m.add_named_pattern("twos_then_three".to_string(), p).unwrap();
    assert_eq!(m.run(&[1, 2, 2, 3, 2, 3, 3]), Ok(()));
    assert_eq!(*hits.borrow(), vec![(1, vec![2, 2, 3]), (4, vec![2, 3])]);
}

#[test]
fn run_tries_lower_priority_value_first() {
    let hits = Rc::new(RefCell::new(Vec::new()));
    let a = hits.clone();
    let b = hits.clone();
    let mut m = Matcher::<i32, ()>::new(4);
    m.register_extractor(1, move |_| {
        a.borrow_mut().push("low");
        Ok(ExtractorAction::Continue)
    });
    m.register_extractor(2, move |_| {
        b.borrow_mut().push("high");
        Ok(ExtractorAction::Continue)
    });
    let low = Pattern::with_settings(vec![PatternElement::wildcard()], PatternSettings { priority: 5, extractor_id: Some(1) });
    let high = Pattern::with_settings(vec![PatternElement::exact(4)], PatternSettings { priority: 1, extractor_id: Some(2) });
    m.add_named_pattern("any".to_string(), low).unwrap();
    m.add_named_pattern("four".to_string(), high).unwrap();
    assert_eq!(m.priority_order(), vec![1, 0]);
    m.run(&[4, 7]).unwrap();
    assert_eq!(*hits.borrow(), vec!["high", "low"]);
}

#[test]
fn run_skip_past_end_is_invalid_position() {
    let mut m = Matcher::<i32, ()>::new(4);
    m.register_extractor(1, |state| Ok(ExtractorAction::Skip(state.input_length.unwrap() + 1)));
    let p = Pattern::with_settings(vec![PatternElement::exact(1)], PatternSettings { priority: 0, extractor_id: Some(1) });
    m.add_named_pattern("one".to_string(), p).unwrap();
    assert_eq!(m.run(&[1, 2, 3]), Err(MatcherError::InvalidPosition(4)));
}

#[test]
fn run_remove_missing_pattern_fails() {
    let mut m = Matcher::<i32, ()>::new(4);
    m.register_extractor(1, |_| Ok(ExtractorAction::RemovePattern("missing".to_string())));
    let p = Pattern::with_settings(vec![PatternElement::exact(1)], PatternSettings { priority: 0, extractor_id: Some(1) });
    m.add_named_pattern("one".to_string(), p).unwrap();
    assert_eq!(m.run(&[0, 1]), Err(MatcherError::PatternNotFound("missing".to_string())));
}

#[test]
fn run_stop_matching_ends_scan() {
    let hits = Rc::new(RefCell::new(0));
    let h = hits.clone();
    let mut m = Matcher::<i32, ()>::new(4);
    m.register_extractor(1, move |_| {
        *h.borrow_mut() += 1;
        Ok(ExtractorAction::StopMatching)
    });
    let p = Pattern::with_settings(vec![PatternElement::exact(1)], PatternSettings { priority: 0, extractor_id: Some(1) });
    m.add_named_pattern("one".to_string(), p).unwrap();
    assert_eq!(m.run(&[1, 1, 1]), Ok(()));
    assert_eq!(*hits.borrow(), 1);
}

#[test]
fn run_added_pattern_is_used_from_next_position() {
    let hits = Rc::new(RefCell::new(Vec::new()));
    let h = hits.clone();
    let mut m = Matcher::<i32, ()>::new(4);
    m.register_extractor(1, |_| {
        Ok(ExtractorAction::AddPattern(
            "added".to_string(),
            Pattern::with_settings(vec![PatternElement::exact(7)], PatternSettings { priority: 0, extractor_id: Some(2) }),
        ))
    });
    m.register_extractor(2, move |state| {
        h.borrow_mut().push(state.position);
        Ok(ExtractorAction::Continue)
    });
    let p = Pattern::with_settings(vec![PatternElement::exact(1)], PatternSettings { priority: 0, extractor_id: Some(1) });
    m.add_named_pattern("adder".to_string(), p).unwrap();
    m.run(&[7, 1, 7]).unwrap();
    assert_eq!(*hits.borrow(), vec![2]);
    assert_eq!(m.named_pattern_count(), 2);
}

#[test]
fn element_extractor_runs_per_consumed_item() {
    let hits = Rc::new(RefCell::new(Vec::new()));
    let h = hits.clone();
    let mut m = Matcher::<i32, ()>::new(4);
    m.register_extractor(1, move |state| {
        h.borrow_mut().push((state.current_item, state.matched_items.len()));
        Ok(ExtractorAction::Continue)
    });
    let el = PatternElement::exact_with_settings(
        3,
        ElementSettings { min_repeat: 1, max_repeat: 5, extractor_id: Some(1), ..ElementSettings::new() },
    );
    m.add_named_pattern("threes".to_string(), Pattern::new(vec![el])).unwrap();
    m.run(&[3, 3, 0]).unwrap();
    assert_eq!(*hits.borrow(), vec![(3, 1), (3, 2)]);
}

#[test]
fn invalid_bounds_are_refused_at_registration() {
    let mut m = Matcher::<i32, ()>::new(4);
    let p = Pattern::new(vec![PatternElement::exact_with_settings(1, repeat(3, 2, true))]);
    assert_eq!(m.add_named_pattern("bad".to_string(), p), Err(MatcherError::InvalidPattern("bad".to_string())));
    assert_eq!(m.named_pattern_count(), 0);
    assert!(m.remove_pattern("bad").is_none());
}

#[test]
fn next_position_cases() {
    type A = ExtractorAction<i32, ()>;
    assert_eq!(next_position(&A::Continue, 2, 4, 10), Ok(Some(4)));
    assert_eq!(next_position(&A::Skip(3), 2, 4, 10), Ok(Some(5)));
    assert_eq!(next_position(&A::Skip(9), 2, 4, 10), Err(MatcherError::InvalidPosition(11)));
    assert_eq!(next_position(&A::Jump(-5), 2, 4, 10), Ok(Some(0)));
    assert_eq!(next_position(&A::Jump(-1), 2, 4, 10), Ok(Some(1)));
    assert_eq!(next_position(&A::Jump(9), 2, 4, 10), Err(MatcherError::InvalidPosition(11)));
    assert_eq!(next_position(&A::RestartFrom(10), 2, 4, 10), Ok(Some(10)));
    assert_eq!(next_position(&A::RestartFrom(11), 2, 4, 10), Err(MatcherError::InvalidPosition(11)));
    assert_eq!(next_position(&A::DiscardPartialMatch, 2, 4, 10), Ok(Some(3)));
    assert_eq!(next_position(&A::StopMatching, 2, 4, 10), Ok(None));
    assert_eq!(next_position(&A::Extract(1), 2, 4, 10), Ok(None));
    assert_eq!(next_position(&A::Skip(usize::MAX), 2, 4, 10), Err(MatcherError::InvalidPosition(usize::MAX)));
}

#[test]
fn repeat_tests_with_inner_and_repeats_by_own_bounds() {
    let inner: PatternElement<i32, ()> = PatternElement::range(1, 3);
    let el = PatternElement::repeat(inner, repeat(2, 3, true));
    assert_eq!(el.matches(&2), Ok(true));
    assert_eq!(el.matches(&4), Ok(false));
    assert_eq!(el.match_at(&[1, 2, 3, 1], 0), Some(3));
    assert_eq!(el.match_at(&[1, 5], 0), None);
}
