use scrolling_window_pattern_matcher::{
    ElementSettings, ExtractorAction, ExtractorError, Matcher, Pattern, PatternElement, PatternSettings,
};

fn bounds(min: usize, max: usize) -> ElementSettings<()> {
    ElementSettings { min_repeat: min, max_repeat: max, ..ElementSettings::new() }
}

fn with_extractor(id: u32) -> ElementSettings<()> {
    ElementSettings { extractor_id: Some(id), ..ElementSettings::new() }
}

fn add(m: &mut Matcher<i32, ()>, name: &str, elements: Vec<PatternElement<i32, ()>>) {
    m.add_named_pattern(name.to_string(), Pattern::new(elements)).unwrap();
}

#[test]
fn test_repeat_and_capture_complex_patterns() {
    let mut matcher = Matcher::<i32, ()>::new(8);
    add(
        &mut matcher,
        "gap_and_value",
        vec![
            PatternElement::wildcard_with_settings(bounds(2, 2)),
            PatternElement::exact_with_settings(3, bounds(1, 1)),
        ],
    );
    add(&mut matcher, "triple_twos", vec![PatternElement::exact_with_settings(2, bounds(3, 3))]);
    let window = vec![1, 2, 2, 2, 3, 4, 5, 6];
    let result = matcher.run(&window);
    assert!(result.is_ok());
}

#[test]
fn test_nines_block_pattern() {
    let mut matcher = Matcher::<i32, ()>::new(11);
    add(
        &mut matcher,
        "nines_block",
        vec![
            PatternElement::exact_with_settings(9, bounds(3, 3)),
            PatternElement::wildcard_with_settings(bounds(1, 1)),
            PatternElement::exact_with_settings(5, bounds(1, 1)),
        ],
    );
    let window2 = vec![1, 9, 9, 9, 2, 5, 4, 9, 9, 9, 5];
    let result2 = matcher.run(&window2);
    assert!(result2.is_ok());
}

#[test]
fn test_flexible_sequence_matching() {
    let mut matcher = Matcher::<i32, ()>::new(5);
    add(
        &mut matcher,
        "one_two_sequence",
        vec![PatternElement::exact_with_settings(1, bounds(1, 1)), PatternElement::exact_with_settings(2, bounds(1, 1))],
    );
    add(
        &mut matcher,
        "two_one_sequence",
        vec![PatternElement::exact_with_settings(2, bounds(1, 1)), PatternElement::exact_with_settings(1, bounds(1, 1))],
    );
    let window = [1, 2, 1, 2, 1];
    let result = matcher.run(&window);
    assert!(result.is_ok());
}

#[test]
fn test_callback_equivalent_extractors() {
    let mut matcher = Matcher::<i32, ()>::new(5);
    matcher.register_extractor(1, |state| {
        assert_eq!(state.matched_items, vec![1]);
        Ok(ExtractorAction::Continue)
    });
    matcher.register_extractor(2, |state| {
        assert_eq!(state.matched_items, vec![2]);
        Ok(ExtractorAction::Continue)
    });
    add(
        &mut matcher,
        "extractor_pattern_1",
        vec![PatternElement::exact_with_settings(1, with_extractor(1)), PatternElement::exact_with_settings(2, with_extractor(2))],
    );
    let window = vec![1, 2, 1, 2, 1];
    let result = matcher.run(&window);
    assert!(result.is_ok());
}

#[test]
fn test_overlap_handling() {
    let mut matcher = Matcher::<i32, ()>::new(5);
    add(&mut matcher, "overlap_pattern_1", vec![PatternElement::exact(1), PatternElement::exact(2)]);
    add(&mut matcher, "overlap_pattern_2", vec![PatternElement::exact(2), PatternElement::exact(1)]);
    let window = vec![1, 2, 1, 2, 1];
    let result = matcher.run(&window);
    assert!(result.is_ok());
}

#[test]
fn test_empty_patterns_and_windows_comprehensive() {
    let mut matcher = Matcher::<i32, ()>::new(3);
    let window = vec![1, 2, 3];
    let result = matcher.run(&window);
    assert!(result.is_ok());

    add(&mut matcher, "find_something", vec![PatternElement::exact(1)]);
    let empty_window: Vec<i32> = vec![];
    let result2 = matcher.run(&empty_window);
    assert!(result2.is_ok());
}

#[test]
fn test_single_element_pattern_variations() {
    let mut matcher = Matcher::<i32, ()>::new(3);
    add(&mut matcher, "single_value", vec![PatternElement::exact(2)]);
    add(&mut matcher, "single_function", vec![PatternElement::predicate(|x: &i32| *x > 5)]);
    add(&mut matcher, "single_any", vec![PatternElement::wildcard()]);
    let window = vec![1, 2, 6];
    let result = matcher.run(&window);
    assert!(result.is_ok());
}

#[test]
fn test_advanced_function_patterns() {
    let mut matcher = Matcher::<i32, ()>::new(5);
    add(&mut matcher, "greater_than_two", vec![PatternElement::predicate(|x: &i32| *x > 2)]);
    add(
        &mut matcher,
        "one_then_exact_two",
        vec![PatternElement::exact(1), PatternElement::predicate(|x: &i32| *x == 2)],
    );
    let window = vec![1, 2, 3, 4, 5];
    let result = matcher.run(&window);
    assert!(result.is_ok());
}

#[test]
fn test_pattern_priority_with_extractors() {
    let mut matcher = Matcher::<i32, ()>::new(3);
    matcher.register_extractor(1, |_| Ok(ExtractorAction::Continue));
    matcher
        .add_named_pattern(
            "high_priority_extractor".to_string(),
            Pattern::with_settings(
                vec![PatternElement::wildcard_with_settings(with_extractor(1))],
                PatternSettings { priority: 1, extractor_id: None },
            ),
        )
        .unwrap();
    matcher
        .add_named_pattern(
            "low_priority_simple".to_string(),
            Pattern::with_settings(vec![PatternElement::wildcard()], PatternSettings { priority: 10, extractor_id: None }),
        )
        .unwrap();
    let window = vec![1, 2, 3];
    let result = matcher.run(&window);
    assert!(result.is_ok());
}

#[test]
fn test_nested_repeat_patterns() {
    let mut matcher = Matcher::<i32, ()>::new(5);
    add(
        &mut matcher,
        "nested_repeat",
        vec![PatternElement::repeat(PatternElement::exact_with_settings(7, bounds(2, 2)), bounds(1, 2))],
    );
    let window = vec![7, 7, 3, 7, 7];
    let result = matcher.run(&window);
    assert!(result.is_ok());
}

#[test]
fn test_complex_extractor_actions_sequence() {
    let mut matcher = Matcher::<i32, ()>::new(5);
    matcher.register_extractor(1, |state| match state.position {
        0 => Ok(ExtractorAction::Continue),
        1 => Ok(ExtractorAction::Skip(1)),
        _ => Ok(ExtractorAction::Continue),
    });
    add(&mut matcher, "complex_extractor", vec![PatternElement::exact_with_settings(100, with_extractor(1))]);
    let window = vec![100, 1, 2, 100, 3];
    let result = matcher.run(&window);
    assert!(result.is_ok());
}

#[test]
fn test_boundary_conditions() {
    let mut matcher = Matcher::<i32, ()>::new(11);
    add(
        &mut matcher,
        "boundary_test",
        vec![PatternElement::wildcard_with_settings(bounds(1, 10)), PatternElement::exact(999)],
    );
    let window1 = vec![1, 999];
    assert!(matcher.run(&window1).is_ok());
    let window2 = vec![1, 2, 3, 4, 5, 6, 7, 8, 9, 10, 999];
    assert!(matcher.run(&window2).is_ok());
    let window3 = vec![1, 2, 3, 4, 5];
    assert!(matcher.run(&window3).is_ok());
}

#[test]
fn test_real_world_log_analysis_scenario() {
    let mut matcher = Matcher::<i32, ()>::new(10);
    add(
        &mut matcher,
        "http_error_with_retry",
        vec![
            PatternElement::predicate(|x: &i32| *x >= 400 && *x < 500),
            PatternElement::predicate(|x: &i32| *x <= 3),
        ],
    );
    add(
        &mut matcher,
        "success_after_retry",
        vec![
            PatternElement::predicate(|x: &i32| *x >= 400 && *x < 500),
            PatternElement::predicate(|x: &i32| *x <= 3),
            PatternElement::exact(200),
        ],
    );
    let log_data = vec![200, 404, 1, 200, 403, 2, 500, 429, 3, 200];
    let result = matcher.run(&log_data);
    assert!(result.is_ok());
}

#[test]
fn test_performance_with_many_patterns() {
    let mut matcher = Matcher::<i32, ()>::new(100);
    for i in 0..50 {
        add(&mut matcher, &format!("pattern_{}", i), vec![PatternElement::exact(i)]);
    }
    let window: Vec<i32> = (0..100).collect();
    let result = matcher.run(&window);
    assert!(result.is_ok());
}

#[test]
fn test_extractor_chain_reactions() {
    let mut matcher = Matcher::<i32, ()>::new(3);
    matcher.register_extractor(1, |_state| {
        Ok(ExtractorAction::AddPattern("dynamically_added".to_string(), Pattern::new(vec![PatternElement::exact(84)])))
    });
    add(&mut matcher, "pattern_adder", vec![PatternElement::exact_with_settings(42, with_extractor(1))]);
    let window = vec![42, 84, 126];
    let result = matcher.run(&window);
    assert!(result.is_ok());
}

#[test]
fn test_mixed_data_types() {
    let mut matcher: Matcher<u32, ()> = Matcher::new(3);
    matcher.add_named_pattern("u32_pattern".to_string(), Pattern::new(vec![PatternElement::exact(42u32)])).unwrap();
    let window = vec![1u32, 42u32, 3u32];
    let result = matcher.run(&window);
    assert!(result.is_ok());
}

#[test]
fn test_extractor_error_recovery() {
    let mut matcher = Matcher::<i32, ()>::new(3);
    matcher.register_extractor(1, |state| {
        if state.position == 0 {
            Err(ExtractorError::ProcessingFailed("Position zero error".to_string()))
        } else {
            Ok(ExtractorAction::Continue)
        }
    });
    add(&mut matcher, "potential_error", vec![PatternElement::exact_with_settings(1, with_extractor(1))]);
    let window = vec![1, 2, 3];
    let result = matcher.run(&window);
    assert!(result.is_err());
}
