use dcs::Score;
use dcs::DCS;

fn score(x: f64) -> Score {
    Score::from_bits(x.to_bits())
}

fn number(s: Option<Score>) -> Option<f64> {
    s.map(|s| f64::from_bits(s.to_bits()))
}

#[test]
fn test_set_get() {
    let dcs = DCS::new();
    dcs.set("key1".to_string(), "value1".to_string()).unwrap();
    assert_eq!(dcs.get("key1").unwrap(), Some("value1".to_string()));
}

#[test]
fn test_get_nonexistent() {
    let dcs = DCS::new();
    assert_eq!(dcs.get("nonexistent_key").unwrap(), None);
}

#[test]
fn test_list_push_pop() {
    let dcs = DCS::new();
    dcs.list_push("list1".to_string(), "value1".to_string())
        .unwrap();
    dcs.list_push("list1".to_string(), "value2".to_string())
        .unwrap();
    assert_eq!(dcs.list_pop("list1").unwrap(), Some("value2".to_string()));
    assert_eq!(dcs.list_pop("list1").unwrap(), Some("value1".to_string()));
    assert_eq!(dcs.list_pop("list1").unwrap(), None);
}

#[test]
fn test_list_len() {
    let dcs = DCS::new();
    assert_eq!(dcs.list_len("list1").unwrap(), 0);
    dcs.list_push("list1".to_string(), "value1".to_string())
        .unwrap();
    dcs.list_push("list1".to_string(), "value2".to_string())
        .unwrap();
    assert_eq!(dcs.list_len("list1").unwrap(), 2);
}

#[test]
fn test_list_push_multi() {
    let dcs = DCS::new();
    let values = vec![
        "value1".to_string(),
        "value2".to_string(),
        "value3".to_string(),
    ];
    dcs.list_push_multi("list1".to_string(), values).unwrap();
    assert_eq!(dcs.list_len("list1").unwrap(), 3);
}

#[test]
fn test_hash_set_get() {
    let dcs = DCS::new();
    dcs.hash_set(
        "hash1".to_string(),
        "field1".to_string(),
        "value1".to_string(),
    )
    .unwrap();
    assert_eq!(
        dcs.hash_get("hash1", "field1").unwrap(),
        Some("value1".to_string())
    );
}

#[test]
fn test_hash_del() {
    let dcs = DCS::new();
    dcs.hash_set(
        "hash1".to_string(),
        "field1".to_string(),
        "value1".to_string(),
    )
    .unwrap();
    assert_eq!(
        dcs.hash_del("hash1".to_string(), "field1".to_string())
            .unwrap(),
        true
    );
    assert_eq!(dcs.hash_get("hash1", "field1").unwrap(), None);
}

#[test]
fn test_set_add_is_member() {
    let dcs = DCS::new();
    dcs.set_add("set1".to_string(), "value1".to_string())
        .unwrap();
    assert_eq!(dcs.set_is_member("set1", "value1").unwrap(), true);
    assert_eq!(dcs.set_is_member("set1", "value2").unwrap(), false);
}

#[test]
fn test_set_remove() {
    let dcs = DCS::new();
    dcs.set_add("set1".to_string(), "value1".to_string())
        .unwrap();
    assert_eq!(
        dcs.set_remove("set1".to_string(), "value1".to_string())
            .unwrap(),
        true
    );
    assert_eq!(dcs.set_is_member("set1", "value1").unwrap(), false);
}

#[test]
fn test_zset_add_score() {
    let dcs = DCS::new();
    dcs.zset_add("zset1".to_string(), score(1.0), "value1".to_string())
        .unwrap();
    assert_eq!(number(dcs.zset_score("zset1", "value1").unwrap()), Some(1.0));
    assert_eq!(number(dcs.zset_score("zset1", "value2").unwrap()), None);
}

#[test]
fn test_zset_remove() {
    let dcs = DCS::new();
    dcs.zset_add("zset1".to_string(), score(1.0), "value1".to_string())
        .unwrap();
    assert_eq!(
        dcs.zset_remove("zset1".to_string(), "value1".to_string())
            .unwrap(),
        true
    );
    assert_eq!(number(dcs.zset_score("zset1", "value1").unwrap()), None);
}
