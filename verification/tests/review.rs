use papers::paper::PaperMeta;

const DAY: i64 = 86_400;

fn paper(last: Option<i64>, next: Option<i64>) -> PaperMeta {
    PaperMeta { title: "T".to_owned(), last_review: last, next_review: next, ..Default::default() }
}

#[test]
fn review_is_due_when_never_scheduled_or_overdue() {
    assert!(paper(None, None).is_reviewable(1000));
    assert!(paper(None, Some(999)).is_reviewable(1000));
    assert!(!paper(None, Some(1000)).is_reviewable(1000));
    assert!(!paper(None, Some(1001)).is_reviewable(1000));
    assert!(paper(Some(5), None).is_reviewable(1000));
}

#[test]
fn review_first_wait_is_a_day() {
    let now = 1_700_000_000;
    assert_eq!(paper(None, None).calculate_next_review_date(now), Some(now + DAY));
    assert_eq!(paper(None, Some(5)).calculate_next_review_date(now), Some(now + DAY));
    assert_eq!(paper(Some(5), None).calculate_next_review_date(now), Some(now + DAY));
}

#[test]
fn review_wait_is_the_gap_squared() {
    let now = 1_700_000_000;
    let t = 1_600_000_000;
    assert_eq!(paper(Some(t), Some(t + 3 * DAY)).calculate_next_review_date(now), Some(now + 9 * DAY));
    assert_eq!(paper(Some(t), Some(t + 10 * DAY)).calculate_next_review_date(now), Some(now + 100 * DAY));
    assert_eq!(paper(Some(t), Some(t + 2 * DAY)).calculate_next_review_date(now), Some(now + 4 * DAY));
    // Part of a day does not count.
    assert_eq!(paper(Some(t), Some(t + 3 * DAY - 1)).calculate_next_review_date(now), Some(now + 4 * DAY));
}

#[test]
fn review_short_gaps_wait_two_days() {
    let now = 1_700_000_000;
    let t = 1_600_000_000;
    assert_eq!(paper(Some(t), Some(t + DAY)).calculate_next_review_date(now), Some(now + 2 * DAY));
    assert_eq!(paper(Some(t), Some(t)).calculate_next_review_date(now), Some(now + 2 * DAY));
    assert_eq!(paper(Some(t), Some(t + 2 * DAY - 1)).calculate_next_review_date(now), Some(now + 2 * DAY));
    assert_eq!(paper(Some(t), Some(t - 50 * DAY)).calculate_next_review_date(now), Some(now + 2 * DAY));
}

#[test]
fn review_update_shifts_the_dates() {
    let now = 1_700_000_000;
    let mut p = paper(None, None);
    p.update_review(now);
    assert_eq!(p.last_review, None);
    assert_eq!(p.next_review, Some(now + DAY));
    p.update_review(now);
    assert_eq!(p.last_review, Some(now + DAY));
    assert_eq!(p.next_review, Some(now + DAY));
    p.update_review(now);
    assert_eq!(p.last_review, Some(now + DAY));
    assert_eq!(p.next_review, Some(now + 2 * DAY));
    p.update_review(now);
    assert_eq!(p.last_review, Some(now + 2 * DAY));
    assert_eq!(p.next_review, Some(now + 2 * DAY));
}

#[test]
fn review_repeated_at_once_never_comes_sooner() {
    let now = 1_700_000_000;
    let mut p = paper(None, None);
    p.update_review(now);
    let mut previous = p.next_review.unwrap();
    assert_eq!(previous, now + DAY);
    for _ in 0..20 {
        p.update_review(now);
        let next = p.next_review.unwrap();
        assert!(next >= previous);
        previous = next;
    }
}

#[test]
fn review_keeps_everything_but_the_dates() {
    let mut p = paper(Some(10), Some(20));
    p.url = Some("u".to_owned());
    p.created_at = 3;
    p.modified_at = 4;
    let before = p.clone();
    p.update_review(100);
    assert_eq!(p.title, before.title);
    assert_eq!(p.url, before.url);
    assert_eq!(p.created_at, 3);
    assert_eq!(p.modified_at, 4);
    assert_eq!(p.last_review, Some(20));
}

#[test]
fn review_beyond_the_last_second_is_refused() {
    let mut p = paper(None, None);
    assert_eq!(p.calculate_next_review_date(i64::MAX), None);
    assert_eq!(p.calculate_next_review_date(i64::MAX - DAY), Some(i64::MAX));
    assert!(!p.try_update_review(i64::MAX));
    assert_eq!(p, paper(None, None));
    let mut q = paper(Some(i64::MIN), Some(i64::MAX));
    assert_eq!(q.calculate_next_review_date(0), None);
    assert!(!q.try_update_review(0));
    assert_eq!(q.next_review, Some(i64::MAX));
    let mut r = paper(None, Some(7));
    assert!(r.try_update_review(1000));
    assert_eq!(r.last_review, Some(7));
    assert_eq!(r.next_review, Some(1000 + DAY));
}

#[test]
fn review_wait_agrees_with_the_power_of_two() {
    let now = 1_700_000_000i64;
    let last = 1_000_000_000i64;
    for gap_days in (-5i64..60).chain([100, 365, 1000, 13_000, 46_340, 46_341, 100_000, 3_000_000]) {
        for extra in [0i64, 1, DAY - 1] {
            let next = last + gap_days * DAY + if gap_days >= 0 { extra } else { -extra };
            let days_since_last = (next - last) / DAY;
            let wait_days =
                if days_since_last > 1 { (days_since_last as f64).powf(2.0).floor() as u64 } else { 2 };
            let expected = now + (wait_days as i64) * DAY;
            assert_eq!(
                paper(Some(last), Some(next)).calculate_next_review_date(now),
                Some(expected),
                "for a gap of {} days and {} seconds",
                gap_days,
                extra
            );
        }
    }
}
