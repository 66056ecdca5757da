use ray_tracer::recent::RecentValues;

#[test]
fn window_keeps_the_latest_values() {
    let mut window = RecentValues::new(3);
    assert_eq!(window.len(), 0);
    assert_eq!(window.push(2), None);
    assert_eq!(window.push(3), None);
    assert_eq!(window.push(4), None);
    assert_eq!(window.len(), 3);
    assert_eq!(window.push(5), Some(2));
    assert_eq!(window.push(6), Some(3));
    assert_eq!(window.len(), 3);
}

#[test]
fn running_average_over_a_window() {
    // A mean of the last three values, kept as a running sum.
    let mut window = RecentValues::new(3);
    let mut sum = 0i64;
    let mut means = vec![];
    for value in [2i64, 3, 4, 5] {
        if let Some(oldest) = window.push(value) {
            sum -= oldest;
        }
        sum += value;
        means.push(sum as f64 / window.len() as f64);
    }
    assert_eq!(means, vec![2.0, 2.5, 3.0, 4.0]);
}

#[test]
fn window_of_one() {
    let mut window = RecentValues::new(1);
    assert_eq!(window.push('a'), None);
    assert_eq!(window.push('b'), Some('a'));
    assert_eq!(window.len(), 1);
}
