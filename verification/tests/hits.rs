use mnem_global::hits::{sort_by_score, Hit, HitCollector};

fn hit(id: &str, score: u32, tag: &'static str) -> Hit<&'static str> {
    Hit { id: id.to_string(), score, payload: tag }
}

fn tags(v: &[Hit<&'static str>]) -> Vec<&'static str> {
    v.iter().map(|h| h.payload).collect()
}

#[test]
fn collector_keeps_first_per_uuid() {
    let mut c = HitCollector::new();
    assert!(c.is_empty());
    assert!(c.offer(hit("u1", 5, "a")));
    assert!(c.offer(hit("u2", 9, "b")));
    assert!(!c.offer(hit("u1", 99, "c")));
    assert!(c.offer(hit("u3", 1, "d")));
    assert!(!c.offer(hit("u2", 0, "e")));
    assert_eq!(c.len(), 3);
    assert_eq!(tags(&c.finish(10)), vec!["b", "a", "d"]);
}

#[test]
fn finish_truncates_after_ranking() {
    let mut c = HitCollector::new();
    for (id, s, t) in [("1", 1, "low"), ("2", 30, "top"), ("3", 20, "mid"), ("4", 25, "second")] {
        c.offer(hit(id, s, t));
    }
    assert_eq!(tags(&c.finish(2)), vec!["top", "second"]);
}

#[test]
fn finish_with_zero_limit_is_empty() {
    let mut c = HitCollector::new();
    c.offer(hit("1", 1, "x"));
    assert!(c.finish(0).is_empty());
}

#[test]
fn sort_is_stable_for_equal_scores() {
    let v = vec![hit("a", 5, "a"), hit("b", 7, "b"), hit("c", 5, "c"), hit("d", 7, "d"), hit("e", 5, "e")];
    assert_eq!(tags(&sort_by_score(v)), vec!["b", "d", "a", "c", "e"]);
}

#[test]
fn sort_empty_and_single() {
    assert!(sort_by_score::<&'static str>(vec![]).is_empty());
    assert_eq!(tags(&sort_by_score(vec![hit("a", 3, "a")])), vec!["a"]);
}
