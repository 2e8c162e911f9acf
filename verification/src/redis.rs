//! Collecting key-value models into command arguments.
//!
//! A [`RedisModel`] is a value that knows the key it is stored under and
//! the string it serializes to. A [`RedisModelCollector`] turns a group of
//! models into the key/value argument pairs that a bulk store command
//! takes, skipping models that cannot produce a key or a value — the
//! client layer discards such entries rather than failing the batch.

use vstd::prelude::*;

use deadpool_redis::redis::ToRedisArgs;

verus! {

/// The bytes a string encodes to as a single command argument.
pub uninterp spec fn redis_arg_bytes(s: Seq<char>) -> Seq<u8>;

/// Relies on redis' ToRedisArgs for String: a string encodes to exactly
/// one argument — its bytes, a function of the characters alone.
#[verifier::external_body]
fn string_redis_args(s: &String) -> (r: Vec<Vec<u8>>)
    ensures
        r@.len() == 1,
        r@[0]@ == redis_arg_bytes(s@),
{
    s.to_redis_args()
}

/// A value stored in a key-value store under a key of its own choosing.
///
/// `key` names the entry and `value` is the serialized form to store;
/// either may be unavailable, in which case collectors skip the model.
pub trait RedisModel: Sized {
    /// The key this model is stored under, if it has one.
    spec fn spec_key(&self) -> Option<Seq<char>>;

    /// The serialized form of this model, if it has one.
    spec fn spec_value(&self) -> Option<Seq<char>>;

    /// Returns the key this model is stored under.
    fn key(&self) -> (r: Option<String>)
        ensures
            match r {
                Some(k) => self.spec_key() == Some(k@),
                None => self.spec_key() is None,
            },
    ;

    /// Returns the serialized form of this model.
    fn value(&self) -> (r: Option<String>)
        ensures
            match r {
                Some(v) => self.spec_value() == Some(v@),
                None => self.spec_value() is None,
            },
    ;
}

/// A pair of an already-serialized key and value is itself a model.
impl RedisModel for (String, String) {
    open spec fn spec_key(&self) -> Option<Seq<char>> {
        Some(self.0@)
    }

    open spec fn spec_value(&self) -> Option<Seq<char>> {
        Some(self.1@)
    }

    fn key(&self) -> (r: Option<String>) {
        Some(self.0.clone())
    }

    fn value(&self) -> (r: Option<String>) {
        Some(self.1.clone())
    }
}

/// A pair of an optional key and value: collectable only when both are
/// present.
impl RedisModel for (Option<String>, Option<String>) {
    open spec fn spec_key(&self) -> Option<Seq<char>> {
        match self.0 {
            Some(k) => Some(k@),
            None => None,
        }
    }

    open spec fn spec_value(&self) -> Option<Seq<char>> {
        match self.1 {
            Some(v) => Some(v@),
            None => None,
        }
    }

    fn key(&self) -> (r: Option<String>) {
        match &self.0 {
            Some(k) => Some(k.clone()),
            None => None,
        }
    }

    fn value(&self) -> (r: Option<String>) {
        match &self.1 {
            Some(v) => Some(v.clone()),
            None => None,
        }
    }
}

/// The key and value strings of the models that have both, in order.
pub open spec fn collected_entries<M: RedisModel>(models: Seq<&M>) -> Seq<(Seq<char>, Seq<char>)>
    decreases models.len(),
{
    if models.len() == 0 {
        Seq::empty()
    } else {
        let init = collected_entries(models.drop_last());
        match (models.last().spec_key(), models.last().spec_value()) {
            (Some(k), Some(v)) => init.push((k, v)),
            _ => init,
        }
    }
}

/// Whether the argument pair `p` is the encoding of the key and value
/// strings `e`.
pub open spec fn encodes_entry(p: (Vec<Vec<u8>>, Vec<Vec<u8>>), e: (Seq<char>, Seq<char>)) -> bool {
    &&& p.0@.len() == 1
    &&& p.0@[0]@ == redis_arg_bytes(e.0)
    &&& p.1@.len() == 1
    &&& p.1@[0]@ == redis_arg_bytes(e.1)
}

/// A group of models that can be turned into the key/value argument pairs
/// of a bulk store command.
pub trait RedisModelCollector<M: RedisModel> {
    /// Returns one encoded (key, value) argument pair per collectable
    /// model.
    fn collect(&self) -> Vec<(Vec<Vec<u8>>, Vec<Vec<u8>>)>;
}

impl<'a, M: RedisModel> RedisModelCollector<M> for Vec<&'a M> {
    /// The pairs are the encodings of exactly the models with both a key
    /// and a value, in order.
    fn collect(&self) -> (r: Vec<(Vec<Vec<u8>>, Vec<Vec<u8>>)>)
        ensures
            r@.len() == collected_entries(self@).len(),
            forall|i: int|
                0 <= i < r@.len() ==> encodes_entry(#[trigger] r@[i], collected_entries(self@)[i]),
    {
        let mut out: Vec<(Vec<Vec<u8>>, Vec<Vec<u8>>)> = Vec::new();
        let mut j: usize = 0;
        while j < self.len()
            invariant
                j <= self@.len(),
                out@.len() == collected_entries(self@.take(j as int)).len(),
                forall|i: int|
                    0 <= i < out@.len() ==> encodes_entry(
                        #[trigger] out@[i],
                        collected_entries(self@.take(j as int))[i],
                    ),
            decreases self@.len() - j,
        {
            let m = self[j];
            let ghost pre = self@.take(j as int);
            proof {
                assert(self@.take(j + 1int).drop_last() =~= pre);
                assert(self@.take(j + 1int).last() == self@[j as int]);
            }
            let ghost pre_out = out@;
            match (m.key(), m.value()) {
                (Some(k), Some(v)) => {
                    out.push((string_redis_args(&k), string_redis_args(&v)));
                    proof {
                        let s1 = collected_entries(self@.take(j + 1int));
                        assert(s1 == collected_entries(pre).push((k@, v@)));
                        assert forall|i: int| 0 <= i < out@.len() implies encodes_entry(
                            #[trigger] out@[i],
                            s1[i],
                        ) by {
                            if i < out@.len() - 1 {
                                assert(s1[i] == collected_entries(pre)[i]);
                                assert(out@[i] == pre_out[i]);
                            } else {
                                assert(s1[i] == (k@, v@));
                            }
                        }
                    }
                }
                _ => {
                    proof {
                        assert(collected_entries(self@.take(j + 1int)) == collected_entries(pre));
                    }
                }
            }
            j = j + 1;
        }
        proof {
            assert(self@.take(self@.len() as int) =~= self@);
        }
        out
    }
}

} // verus!
