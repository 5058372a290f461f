use work_tracker::summary::{clock_of, ApplicationBlock};
use work_tracker::tracker::{track_window, Sample, TrackedState};

fn sample(app: &str, window: &str) -> Option<Sample> {
    Some(Sample { application_name: app.to_string(), window_title: window.to_string() })
}

fn durations(state: &TrackedState) -> Vec<(String, String, u64)> {
    state
        .entries()
        .iter()
        .map(|e| (e.application_name.clone(), e.window_name.clone(), e.duration_seconds))
        .collect()
}

fn block_shape(b: &ApplicationBlock) -> (String, u128, Vec<(String, u64)>) {
    (
        b.application_name.clone(),
        b.total_seconds,
        b.entries.iter().map(|l| (l.window_name.clone(), l.duration_seconds)).collect(),
    )
}

#[test]
fn editor_browser_scenario() {
    let mut state = TrackedState::new();
    for _ in 0..3 {
        state.update(sample("Editor", "file.txt"), 5);
    }
    state.update(sample("Browser", "Docs"), 5);
    state.update(None, 5);
    state.update(sample("Editor", "file.txt"), 5);
    assert_eq!(
        durations(&state),
        vec![
            ("Editor".to_string(), "file.txt".to_string(), 20),
            ("Browser".to_string(), "Docs".to_string(), 5),
        ]
    );
    let blocks = state.render();
    assert_eq!(blocks.len(), 2);
    assert_eq!(block_shape(&blocks[0]), ("Editor".to_string(), 20, vec![("file.txt".to_string(), 20)]));
    assert_eq!(block_shape(&blocks[1]), ("Browser".to_string(), 5, vec![("Docs".to_string(), 5)]));
}

#[test]
fn windows_ordered_longest_first_and_apps_by_first_seen() {
    let mut state = TrackedState::new();
    state.update(sample("Small", "only"), 1);
    for _ in 0..3 {
        state.update(sample("Editor", "A"), 5);
    }
    state.update(sample("Editor", "B"), 20);
    let blocks = state.render();
    assert_eq!(block_shape(&blocks[0]), ("Small".to_string(), 1, vec![("only".to_string(), 1)]));
    assert_eq!(
        block_shape(&blocks[1]),
        ("Editor".to_string(), 35, vec![("B".to_string(), 20), ("A".to_string(), 15)])
    );
}

#[test]
fn equal_durations_keep_encounter_order() {
    let mut state = TrackedState::new();
    state.update(sample("App", "first"), 5);
    state.update(sample("App", "second"), 5);
    state.update(sample("App", "third"), 10);
    let blocks = state.render();
    assert_eq!(
        block_shape(&blocks[0]).2,
        vec![("third".to_string(), 10), ("first".to_string(), 5), ("second".to_string(), 5)]
    );
}

#[test]
fn absent_sample_changes_nothing() {
    let mut state = TrackedState::new();
    state.update(None, 5);
    assert!(state.entries().is_empty());
    assert!(state.applications().is_empty());
    state.update(sample("Editor", "file.txt"), 5);
    let before = durations(&state);
    state.update(None, 5);
    assert_eq!(durations(&state), before);
    assert_eq!(state.applications().clone(), vec!["Editor".to_string()]);
}

#[test]
fn new_pair_adds_one_entry_of_one_period() {
    let mut state = TrackedState::new();
    state.update(sample("Editor", "a.txt"), 7);
    assert_eq!(state.entries().len(), 1);
    state.update(sample("Editor", "b.txt"), 7);
    assert_eq!(state.entries().len(), 2);
    assert_eq!(durations(&state)[1], ("Editor".to_string(), "b.txt".to_string(), 7));
    assert_eq!(state.applications().len(), 1);
}

#[test]
fn same_window_title_in_two_applications_is_two_entries() {
    let mut state = TrackedState::new();
    track_window(&mut state, "Editor".to_string(), "Untitled".to_string(), 5);
    track_window(&mut state, "Paint".to_string(), "Untitled".to_string(), 5);
    track_window(&mut state, "Editor".to_string(), "Untitled".to_string(), 5);
    assert_eq!(
        durations(&state),
        vec![
            ("Editor".to_string(), "Untitled".to_string(), 10),
            ("Paint".to_string(), "Untitled".to_string(), 5),
        ]
    );
    assert_eq!(state.applications().clone(), vec!["Editor".to_string(), "Paint".to_string()]);
}

#[test]
fn empty_names_are_valid_keys() {
    let mut state = TrackedState::new();
    state.update(sample("", ""), 5);
    state.update(sample("", ""), 5);
    assert_eq!(durations(&state), vec![(String::new(), String::new(), 10)]);
    let blocks = state.render();
    assert_eq!(block_shape(&blocks[0]), (String::new(), 10, vec![(String::new(), 10)]));
}

#[test]
fn durations_never_decrease() {
    let mut state = TrackedState::new();
    let ticks = [("A", "x"), ("B", "y"), ("A", "x"), ("A", "z"), ("B", "y")];
    let mut previous: Vec<(String, String, u64)> = Vec::new();
    for (app, window) in ticks.iter() {
        state.update(sample(app, window), 3);
        let now = durations(&state);
        for (i, old) in previous.iter().enumerate() {
            assert_eq!((&now[i].0, &now[i].1), (&old.0, &old.1));
            assert!(now[i].2 >= old.2);
        }
        previous = now;
    }
    assert_eq!(previous[0].2, 6);
    assert_eq!(previous[1].2, 6);
    assert_eq!(previous[2].2, 3);
}

#[test]
fn duration_saturates_instead_of_wrapping() {
    let mut state = TrackedState::new();
    state.update(sample("A", "w"), u64::MAX - 1);
    state.update(sample("A", "w"), 5);
    assert_eq!(durations(&state)[0].2, u64::MAX);
}

#[test]
fn block_total_is_sum_beyond_u64() {
    let mut state = TrackedState::new();
    state.update(sample("A", "one"), u64::MAX);
    state.update(sample("A", "two"), u64::MAX);
    state.update(sample("B", "three"), 4);
    let blocks = state.render();
    assert_eq!(blocks[0].total_seconds, 2 * (u64::MAX as u128));
    let sum: u128 = blocks[0].entries.iter().map(|l| l.duration_seconds as u128).sum();
    assert_eq!(blocks[0].total_seconds, sum);
    assert_eq!(blocks[1].total_seconds, 4);
}

#[test]
fn render_twice_gives_the_same_summary() {
    let mut state = TrackedState::new();
    state.update(sample("Editor", "a"), 5);
    state.update(sample("Browser", "b"), 5);
    state.update(sample("Editor", "c"), 10);
    let first: Vec<_> = state.render().iter().map(block_shape).collect();
    let second: Vec<_> = state.render().iter().map(block_shape).collect();
    assert_eq!(first, second);
    assert_eq!(first[0].1, 15);
}

#[test]
fn render_of_empty_state_is_empty() {
    assert!(TrackedState::new().render().is_empty());
}

#[test]
fn clock_keeps_hours_past_a_day() {
    let c = clock_of(90061);
    assert_eq!((c.hours, c.minutes, c.seconds), (25, 1, 1));
    let c = clock_of(3599);
    assert_eq!((c.hours, c.minutes, c.seconds), (0, 59, 59));
    let c = clock_of(0);
    assert_eq!((c.hours, c.minutes, c.seconds), (0, 0, 0));
}
