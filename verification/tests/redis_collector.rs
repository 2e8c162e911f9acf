use grapple_db::redis::RedisModelCollector;

fn pair(k: &str, v: &str) -> (String, String) {
    (k.to_string(), v.to_string())
}

fn args(s: &str) -> Vec<Vec<u8>> {
    vec![s.as_bytes().to_vec()]
}

#[test]
fn collects_pairs_in_order() {
    let a = pair("user:1", "alice");
    let b = pair("user:2", "bob");
    let models: Vec<&(String, String)> = vec![&a, &b];
    let collected = models.collect();
    assert_eq!(
        collected,
        vec![(args("user:1"), args("alice")), (args("user:2"), args("bob"))]
    );
}

#[test]
fn empty_group_collects_nothing() {
    let models: Vec<&(String, String)> = Vec::new();
    assert!(models.collect().is_empty());
}

#[test]
fn models_without_key_or_value_are_skipped() {
    let good = (Some("k".to_string()), Some("v".to_string()));
    let keyless = (None, Some("lost".to_string()));
    let valueless = (Some("lost".to_string()), None);
    let models: Vec<&(Option<String>, Option<String>)> = vec![&keyless, &good, &valueless];
    assert_eq!(models.collect(), vec![(args("k"), args("v"))]);
}

#[test]
fn encoding_is_the_string_bytes() {
    let a = pair("user:9", "payload");
    let models: Vec<&(String, String)> = vec![&a];
    let collected = models.collect();
    assert_eq!(collected[0].0, vec![b"user:9".to_vec()]);
    assert_eq!(collected[0].1, vec![b"payload".to_vec()]);
}
