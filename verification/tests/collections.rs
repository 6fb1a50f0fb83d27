use dcs::Hashes;
use dcs::Lists;
use dcs::Scalars;
use dcs::Score;
use dcs::Sets;
use dcs::SortedSets;
use dcs::StoreError;
use dcs::DCS;

fn s(text: &str) -> String {
    text.to_string()
}

#[test]
fn unwritten_keys_read_as_absent() {
    let dcs = DCS::new();
    assert_eq!(dcs.get("k").unwrap(), None);
    assert_eq!(dcs.hash_get("k", "f").unwrap(), None);
    assert_eq!(dcs.zset_score("k", "v").unwrap(), None);
    assert_eq!(dcs.list_len("k").unwrap(), 0);
    assert_eq!(dcs.list_pop("k").unwrap(), None);
    assert_eq!(dcs.set_is_member("k", "v").unwrap(), false);
    assert_eq!(dcs.hash_del(s("k"), s("f")).unwrap(), false);
    assert_eq!(dcs.set_remove(s("k"), s("v")).unwrap(), false);
    assert_eq!(dcs.zset_remove(s("k"), s("v")).unwrap(), false);
}

#[test]
fn writes_leave_other_keys_alone() {
    let dcs = DCS::new();
    dcs.set(s("a"), s("1")).unwrap();
    dcs.list_push(s("a"), s("1")).unwrap();
    dcs.hash_set(s("a"), s("f"), s("1")).unwrap();
    dcs.set_add(s("a"), s("1")).unwrap();
    dcs.zset_add(s("a"), Score::from_bits(1), s("1")).unwrap();
    assert_eq!(dcs.get("b").unwrap(), None);
    assert_eq!(dcs.list_len("b").unwrap(), 0);
    assert_eq!(dcs.hash_get("b", "f").unwrap(), None);
    assert_eq!(dcs.set_is_member("b", "1").unwrap(), false);
    assert_eq!(dcs.zset_score("b", "1").unwrap(), None);
}

#[test]
fn namespaces_are_separate() {
    let dcs = DCS::new();
    dcs.set(s("k"), s("scalar")).unwrap();
    assert_eq!(dcs.list_len("k").unwrap(), 0);
    assert_eq!(dcs.hash_get("k", "scalar").unwrap(), None);
    assert_eq!(dcs.set_is_member("k", "scalar").unwrap(), false);
    dcs.list_push(s("k"), s("item")).unwrap();
    assert_eq!(dcs.get("k").unwrap(), Some(s("scalar")));
}

#[test]
fn set_overwrites_and_keeps_the_empty_string() {
    let mut scalars = Scalars::new();
    scalars.set(s("k"), s("first"));
    scalars.set(s("k"), s("second"));
    assert_eq!(scalars.get("k"), Some(s("second")));
    scalars.set(s("k"), s(""));
    assert_eq!(scalars.get("k"), Some(s("")));
    assert_eq!(scalars.get(""), None);
    scalars.set(s(""), s("at the empty key"));
    assert_eq!(scalars.get(""), Some(s("at the empty key")));
}

#[test]
fn push_returns_the_new_length() {
    let mut lists = Lists::new();
    assert_eq!(lists.push(s("k"), s("a")), 1);
    assert_eq!(lists.push(s("k"), s("b")), 2);
    assert_eq!(lists.push(s("other"), s("x")), 1);
    assert_eq!(lists.push(s("k"), s("c")), 3);
    assert_eq!(lists.len("k"), 3);
    assert_eq!(lists.len("other"), 1);
}

#[test]
fn pops_come_in_reverse_order() {
    let mut lists = Lists::new();
    let values = ["v1", "v2", "v3", "v4", "v5"];
    for v in values {
        lists.push(s("k"), s(v));
    }
    for v in values.iter().rev() {
        assert_eq!(lists.pop("k"), Some(s(v)));
    }
    assert_eq!(lists.pop("k"), None);
    assert_eq!(lists.len("k"), 0);
    assert_eq!(lists.push(s("k"), s("again")), 1);
}

#[test]
fn push_multi_equals_three_pushes() {
    let mut multi = Lists::new();
    let mut single = Lists::new();
    let n = multi.push_multi(s("k"), vec![s("v1"), s("v2"), s("v3")]);
    single.push(s("k"), s("v1"));
    single.push(s("k"), s("v2"));
    let m = single.push(s("k"), s("v3"));
    assert_eq!(n, 3);
    assert_eq!(n, m);
    for expected in ["v3", "v2", "v1"] {
        let a = multi.pop("k");
        let b = single.pop("k");
        assert_eq!(a, Some(s(expected)));
        assert_eq!(a, b);
    }
    assert_eq!(multi.pop("k"), None);
    assert_eq!(single.pop("k"), None);
}

#[test]
fn push_multi_appends_to_what_is_there() {
    let mut lists = Lists::new();
    lists.push(s("k"), s("a"));
    assert_eq!(lists.push_multi(s("k"), vec![s("b"), s("c")]), 3);
    assert_eq!(lists.push_multi(s("k"), Vec::new()), 3);
    assert_eq!(lists.push_multi(s("empty"), Vec::new()), 0);
    assert_eq!(lists.len("empty"), 0);
    assert_eq!(lists.pop("empty"), None);
    assert_eq!(lists.pop("k"), Some(s("c")));
    assert_eq!(lists.pop("k"), Some(s("b")));
    assert_eq!(lists.pop("k"), Some(s("a")));
}

#[test]
fn hash_fields_are_set_read_and_deleted() {
    let mut hashes = Hashes::new();
    hashes.set(s("k"), s("f"), s("v"));
    hashes.set(s("k"), s("g"), s("w"));
    hashes.set(s("k"), s("f"), s("v2"));
    assert_eq!(hashes.get("k", "f"), Some(s("v2")));
    assert_eq!(hashes.get("k", "g"), Some(s("w")));
    assert_eq!(hashes.get("k", "h"), None);
    assert_eq!(hashes.get("other", "f"), None);
    assert_eq!(hashes.del("k", "f"), true);
    assert_eq!(hashes.get("k", "f"), None);
    assert_eq!(hashes.del("k", "f"), false);
    assert_eq!(hashes.del("k", "never"), false);
    assert_eq!(hashes.del("other", "f"), false);
    assert_eq!(hashes.get("k", "g"), Some(s("w")));
    assert_eq!(hashes.del("k", "g"), true);
    assert_eq!(hashes.get("k", "g"), None);
    hashes.set(s("k"), s("g"), s("back"));
    assert_eq!(hashes.get("k", "g"), Some(s("back")));
}

#[test]
fn adding_twice_is_adding_once() {
    let mut sets = Sets::new();
    sets.add(s("k"), s("v"));
    sets.add(s("k"), s("v"));
    assert_eq!(sets.contains("k", "v"), true);
    assert_eq!(sets.contains("k", "w"), false);
    assert_eq!(sets.contains("other", "v"), false);
    assert_eq!(sets.remove("k", "v"), true);
    assert_eq!(sets.remove("k", "v"), false);
    assert_eq!(sets.contains("k", "v"), false);
    assert_eq!(sets.remove("other", "v"), false);
}

#[test]
fn last_score_wins() {
    let mut zsets = SortedSets::new();
    let one = Score::from_bits(1.0f64.to_bits());
    let two = Score::from_bits(2.0f64.to_bits());
    zsets.add(s("k"), one, s("v"));
    zsets.add(s("k"), two, s("v"));
    assert_eq!(zsets.score("k", "v"), Some(two));
    assert_eq!(zsets.score("k", "v").map(|x| f64::from_bits(x.to_bits())), Some(2.0));
    assert_eq!(zsets.members("k").len(), 1);
    assert_eq!(zsets.remove("k", "v"), true);
    assert_eq!(zsets.score("k", "v"), None);
    assert_eq!(zsets.remove("k", "v"), false);
    assert_eq!(zsets.members("k").len(), 0);
}

#[test]
fn last_score_wins_in_the_store() {
    let dcs = DCS::new();
    dcs.zset_add(s("k"), Score::from_bits(1.0f64.to_bits()), s("v")).unwrap();
    dcs.zset_add(s("k"), Score::from_bits(2.0f64.to_bits()), s("v")).unwrap();
    let score = dcs.zset_score("k", "v").unwrap();
    assert_eq!(score.map(|x| f64::from_bits(x.to_bits())), Some(2.0));
    assert_eq!(dcs.zset_remove(s("k"), s("v")).unwrap(), true);
    assert_eq!(dcs.zset_score("k", "v").unwrap(), None);
}

#[test]
fn store_operations_follow_the_collections() {
    let dcs = DCS::new();
    assert_eq!(dcs.list_push(s("k"), s("a")).unwrap(), 1);
    assert_eq!(dcs.list_push_multi(s("k"), vec![s("b"), s("c")]).unwrap(), 3);
    assert_eq!(dcs.list_pop("k").unwrap(), Some(s("c")));
    dcs.hash_set(s("k"), s("f"), s("v")).unwrap();
    assert_eq!(dcs.hash_del(s("k"), s("f")).unwrap(), true);
    assert_eq!(dcs.hash_del(s("k"), s("f")).unwrap(), false);
    dcs.set_add(s("k"), s("v")).unwrap();
    dcs.set_add(s("k"), s("v")).unwrap();
    assert_eq!(dcs.set_remove(s("k"), s("v")).unwrap(), true);
    assert_eq!(dcs.set_remove(s("k"), s("v")).unwrap(), false);
    dcs.set(s("k"), s("")).unwrap();
    assert_eq!(dcs.get("k").unwrap(), Some(s("")));
}

#[test]
fn the_error_says_what_failed() {
    let e = StoreError::Poisoned;
    assert_eq!(e.message(), "collection unavailable: its lock is poisoned");
    assert_eq!(e, StoreError::Poisoned);
}

#[test]
fn pushes_in_any_order_are_all_kept() {
    let dcs = DCS::new();
    let order = [5, 2, 7, 0, 3, 6, 1, 4];
    for i in order {
        dcs.list_push(s("shared"), format!("value{}", i)).unwrap();
    }
    assert_eq!(dcs.list_len("shared").unwrap(), order.len());
    let mut seen = Vec::new();
    while let Some(v) = dcs.list_pop("shared").unwrap() {
        seen.push(v);
    }
    seen.sort();
    let expected: Vec<String> = (0..order.len()).map(|i| format!("value{}", i)).collect();
    assert_eq!(seen, expected);
}

#[test]
fn keyed_entries_are_changed_in_place() {
    let mut keyed: dcs::keyed::Keyed<u32> = dcs::keyed::Keyed::new();
    assert_eq!(keyed.get("a"), None);
    assert!(keyed.get_mut("a").is_none());
    *keyed.entry(s("a"), 1) += 10;
    *keyed.entry(s("a"), 1) += 10;
    *keyed.entry(s("b"), 5) += 0;
    assert_eq!(keyed.get("a"), Some(&21));
    assert_eq!(keyed.get("b"), Some(&5));
    if let Some(e) = keyed.get_mut("b") {
        *e = 6;
    }
    assert_eq!(keyed.get("b"), Some(&6));
    assert_eq!(keyed.get("a"), Some(&21));
    assert_eq!(keyed.get("c"), None);
}
