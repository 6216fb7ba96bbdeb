use porterm::activity::{
    aggregate, aggregate_events, bucket_days, chart_scale, Event, MAX_CALENDAR_SECS,
    MIN_CALENDAR_SECS,
};

/// An arbitrary calendar day standing in for "today" (a day count).
const TODAY: i64 = 739000;

fn event_on(secs: i64) -> Event {
    Event {
        id: String::from("100"),
        event_type: String::from("PushEvent"),
        actor_login: String::from("someone"),
        actor_avatar_url: String::from("https://example.invalid/a.png"),
        repo_name: String::from("someone/repo"),
        repo_url: String::from("https://example.invalid/repo"),
        created_at_secs: secs,
    }
}

#[test]
fn three_events_today() {
    let days = vec![TODAY, TODAY, TODAY];
    let c = aggregate(&days, TODAY);
    assert_eq!(c.counts.len(), 30);
    assert_eq!(c.counts[29], 3);
    for k in 0..29 {
        assert_eq!(c.counts[k], 0);
    }
    assert_eq!(c.total, 3);
    assert_eq!(c.max_count, 5);
    // y = 130 - 3 * (120 / 5) = 58 for today's vertex
    assert_eq!(c.points[29].y_num, 290);
    assert_eq!(c.points[29].y_den, 5);
    assert_eq!(c.points[29].y_num as f64 / c.points[29].y_den as f64, 58.0);
    assert_eq!(c.markers, vec![29]);
}

#[test]
fn empty_event_list() {
    let days: Vec<i64> = Vec::new();
    let c = aggregate(&days, TODAY);
    assert_eq!(c.total, 0);
    assert_eq!(c.max_count, 5);
    assert_eq!(c.points.len(), 30);
    for p in &c.points {
        // y = 130: every vertex sits on the baseline
        assert_eq!(p.y_num, 650);
        assert_eq!(p.y_den, 5);
        assert_eq!(p.y_num as f64 / p.y_den as f64, 130.0);
    }
    assert!(c.markers.is_empty());
}

#[test]
fn window_filtering() {
    // one event on the first window day, one before the window, one after
    // "today", one in the middle, one on the last day
    let days = vec![TODAY - 29, TODAY - 30, TODAY + 1, TODAY - 15, TODAY];
    let c = aggregate(&days, TODAY);
    assert_eq!(c.total, 3);
    assert_eq!(c.counts[0], 1);
    assert_eq!(c.counts[14], 1);
    assert_eq!(c.counts[29], 1);
    let sum: usize = c.counts.iter().sum();
    assert_eq!(sum, c.total);
    assert_eq!(c.markers, vec![0, 14, 29]);
}

#[test]
fn thirty_vertices_and_seven_labels() {
    let busy: Vec<i64> = (0..60).map(|k| TODAY - k).collect();
    for days in [Vec::new(), vec![TODAY], busy] {
        let c = aggregate(&days, TODAY);
        assert_eq!(c.points.len(), 30);
        assert_eq!(c.labels, vec![0, 5, 10, 15, 20, 25, 29]);
    }
}

#[test]
fn scale_rises_above_floor() {
    let days = vec![TODAY - 3; 7];
    let c = aggregate(&days, TODAY);
    assert_eq!(c.max_count, 7);
    assert_eq!(c.counts[26], 7);
    // a count equal to the scale maximum reaches the top of the draw area
    assert_eq!(c.points[26].y_num, 130 * 7 - 120 * 7);
    assert_eq!(c.points[26].y_den, 7);
    assert_eq!(c.points[26].y_num as f64 / c.points[26].y_den as f64, 10.0);
    assert_eq!(c.markers, vec![26]);
}

#[test]
fn x_coordinates_span_the_draw_area() {
    let days: Vec<i64> = Vec::new();
    let c = aggregate(&days, TODAY);
    assert_eq!(c.points[0].x_num, 1160);
    assert_eq!(c.points[0].x_den, 29);
    assert_eq!(c.points[0].x_num as f64 / c.points[0].x_den as f64, 40.0);
    assert_eq!(c.points[29].x_num, 17400);
    assert_eq!(c.points[29].x_num as f64 / c.points[29].x_den as f64, 600.0);
    for i in 1..30 {
        assert_eq!(c.points[i].x_num - c.points[i - 1].x_num, 560);
    }
}

#[test]
fn bucketing_alone() {
    let days = vec![TODAY, TODAY - 1, TODAY - 1, TODAY - 40];
    let (counts, total) = bucket_days(&days, TODAY);
    assert_eq!(counts.len(), 30);
    assert_eq!(counts[29], 1);
    assert_eq!(counts[28], 2);
    assert_eq!(total, 3);
}

#[test]
fn scale_alone() {
    assert_eq!(chart_scale(&vec![0; 30]), 5);
    let mut counts = vec![0; 30];
    counts[7] = 9;
    counts[12] = 4;
    assert_eq!(chart_scale(&counts), 9);
    assert_eq!(chart_scale(&Vec::<usize>::new()), 5);
}

#[test]
fn start_day_is_window_start() {
    let c = aggregate(&Vec::<i64>::new(), TODAY);
    assert_eq!(c.start_day, TODAY - 29);
}

#[test]
fn aggregate_events_counts_current_events() {
    let now = std::time::SystemTime::now()
        .duration_since(std::time::UNIX_EPOCH)
        .expect("clock before epoch")
        .as_secs() as i64;
    // three events dated now must land inside the trailing window, whatever
    // the machine's time zone; one far in the past must be discarded
    let events = vec![
        event_on(now),
        event_on(now),
        event_on(now),
        event_on(now - 90 * 86400),
    ];
    let c = aggregate_events(&events);
    assert_eq!(c.total, 3);
    assert_eq!(c.max_count, 5);
    assert_eq!(c.counts.len(), 30);
    let sum: usize = c.counts.iter().sum();
    assert_eq!(sum, 3);
    assert_eq!(c.labels.len(), 7);
}

#[test]
fn aggregate_events_drops_unrepresentable_instants() {
    let events = vec![
        event_on(i64::MAX),
        event_on(i64::MIN),
        event_on(MAX_CALENDAR_SECS + 1),
        event_on(MIN_CALENDAR_SECS - 1),
        // the outermost accepted instants must convert without trouble,
        // whatever the machine's time zone; they lie far outside the window
        event_on(MAX_CALENDAR_SECS),
        event_on(MIN_CALENDAR_SECS),
    ];
    let c = aggregate_events(&events);
    assert_eq!(c.total, 0);
    assert_eq!(c.max_count, 5);
}
