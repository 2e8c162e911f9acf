use core::time::Duration;
use grapple_db::connection::ConnectionParams;

#[test]
fn default_connection_params() {
    let params = ConnectionParams::default();
    assert_eq!(params.uri, "127.0.0.1:9042");
    assert_eq!(params.connection_timeout, Duration::from_secs(3));
    assert_eq!(params.caching_capacity, 1000);
    assert!(params.compression.is_none());
    assert!(params.fetch_keyspaces.is_empty());
    assert!(params.use_keyspace.is_none());
    assert!(params.keyspace_case_sensitive);
    assert!(params.migrate);
    assert!(!params.recreate_keyspace);
    assert!(params.init_files.is_empty());
}

#[test]
fn custom_params_survive_clone() {
    let params = ConnectionParams {
        uri: "192.168.1.100:9042".to_string(),
        connection_timeout: Duration::from_secs(10),
        caching_capacity: 2000,
        compression: Some(scylla::frame::Compression::Lz4),
        use_keyspace: Some("my_app".to_string()),
        ..Default::default()
    };
    let copy = params.clone();
    assert_eq!(copy.uri, "192.168.1.100:9042");
    assert_eq!(copy.connection_timeout, Duration::from_secs(10));
    assert_eq!(copy.caching_capacity, 2000);
    assert_eq!(copy.compression, Some(scylla::frame::Compression::Lz4));
    assert_eq!(copy.use_keyspace.as_deref(), Some("my_app"));
    assert!(copy.migrate);
}
