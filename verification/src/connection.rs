//! Connection configuration for the wide-column store.
//!
//! [`ConnectionParams`] gathers everything needed to open a session:
//! contact point, timeout, statement-cache capacity, compression, keyspace
//! handling and initialization scripts. The struct is plain data; opening
//! the session from it is network work and happens outside the verified
//! library.

use vstd::prelude::*;

use core::time::Duration;
use scylla::frame::Compression;

verus! {

/// Declares the wire-compression enum of the database driver.
#[verifier::external_type_specification]
pub struct ExCompression(Compression);

/// Relies on the driver's derived Compression::clone, which copies the
/// fieldless enum value.
pub assume_specification[ <Compression as Clone>::clone ](c: &Compression) -> (r: Compression)
    ensures
        r == *c,
;

/// Relies on the standard library's derived Duration::clone, which copies
/// the value.
pub assume_specification[ <Duration as Clone>::clone ](d: &Duration) -> (r: Duration)
    ensures
        r == *d,
;

/// Relies on Duration::from_secs. Durations are opaque here, so nothing
/// is stated about the result.
#[verifier::external_body]
fn duration_from_secs(secs: u64) -> Duration {
    Duration::from_secs(secs)
}

/// Configuration for establishing a connection to the wide-column store.
#[derive(Debug, Clone)]
pub struct ConnectionParams {
    /// The contact point, as "host:port".
    pub uri: String,
    /// Maximum time to wait for the connection to be established.
    pub connection_timeout: Duration,
    /// Maximum number of prepared statements the session caches.
    pub caching_capacity: usize,
    /// The wire compression algorithm, if any.
    pub compression: Option<Compression>,
    /// The keyspaces whose metadata to fetch on connection; empty means
    /// all of them.
    pub fetch_keyspaces: Vec<String>,
    /// The keyspace the session uses by default, if any.
    pub use_keyspace: Option<String>,
    /// Whether keyspace names are treated as case-sensitive.
    pub keyspace_case_sensitive: bool,
    /// Whether to run schema migrations after connecting.
    pub migrate: bool,
    /// Whether to drop and recreate the keyspace before using it.
    pub recreate_keyspace: bool,
    /// Initialization scripts to execute after connecting, in order.
    pub init_files: Vec<String>,
}

impl Default for ConnectionParams {
    /// Defaults suitable for a local instance: the standard local contact
    /// point, a three-second connection timeout, a cache of 1000 prepared
    /// statements, no compression, no keyspaces pre-fetched, keyspace
    /// names case-sensitive, no default keyspace, migrations on, no
    /// keyspace recreation and no initialization scripts.
    fn default() -> (r: Self)
        ensures
            r.uri@ == "127.0.0.1:9042"@,
            r.caching_capacity == 1000,
            r.compression is None,
            r.fetch_keyspaces@ == Seq::<String>::empty(),
            r.use_keyspace is None,
            r.keyspace_case_sensitive,
            r.migrate,
            !r.recreate_keyspace,
            r.init_files@ == Seq::<String>::empty(),
    {
        let r = ConnectionParams {
            uri: "127.0.0.1:9042".to_owned(),
            connection_timeout: duration_from_secs(3),
            caching_capacity: 1000,
            compression: None,
            fetch_keyspaces: Vec::new(),
            use_keyspace: None,
            keyspace_case_sensitive: true,
            migrate: true,
            recreate_keyspace: false,
            init_files: Vec::new(),
        };
        proof {
            assert(r.fetch_keyspaces@ =~= Seq::<String>::empty());
            assert(r.init_files@ =~= Seq::<String>::empty());
        }
        r
    }
}

} // verus!
