use vstd::prelude::*;

pub mod config;
pub mod db;

use crate::store::config::Config;
use crate::store::db::Db;
use crate::store::db::RecordV;

verus! {

/// Relies on std::time::SystemTime::now and duration_since(UNIX_EPOCH),
/// read as whole milliseconds. Nothing is assumed of the value returned.
#[verifier::external_body]
pub(crate) fn now_millis() -> u64 {
    match std::time::SystemTime::now().duration_since(std::time::UNIX_EPOCH) {
        Ok(d) => d.as_millis() as u64,
        Err(_) => 0,
    }
}

/// The shared server state: one immutable configuration and one keyed
/// store, owned for the process lifetime.
pub struct Store {
    pub config: Config,
    pub db: Db,
}

/// The absolute expiry for a record written at `now` with the given
/// lifetime in milliseconds: absent when no lifetime is given, or when
/// the sum leaves `u64`.
pub open spec fn spec_deadline(expiry_ms: Option<u64>, now: u64) -> Option<u64> {
    match expiry_ms {
        Some(d) => if now + d <= u64::MAX {
            Some((now + d) as u64)
        } else {
            None
        },
        None => None,
    }
}

impl Store {
    /// An empty store with empty settings.
    pub fn new() -> (s: Store)
        ensures
            s.db@ == Map::<Seq<char>, RecordV>::empty(),
            s.config.dir@ == Seq::<char>::empty(),
            s.config.db_file_name@ == Seq::<char>::empty(),
            s.config.replica_of@ == Seq::<char>::empty(),
    {
        proof {
            reveal_strlit("");
        }
        Store { config: Config::new("", "", ""), db: Db::new() }
    }

    /// An empty store under the given settings.
    pub fn from_config(config: Config) -> (s: Store)
        ensures
            s.db@ == Map::<Seq<char>, RecordV>::empty(),
            s.config == config,
    {
        Store { config, db: Db::new() }
    }

    /// Writes `value` under `key` as of the instant `now`, turning the
    /// optional lifetime into an absolute expiry.
    pub fn set_at(&mut self, key: &str, value: &str, expiry_ms: Option<u64>, now: u64) -> (r:
        Result<(), ()>)
        ensures
            r is Ok,
            final(self).db@ == old(self).db@.insert(
                key@,
                (RecordV { value: value@, expiry: spec_deadline(expiry_ms, now) }),
            ),
            final(self).config == old(self).config,
    {
        let deadline = match expiry_ms {
            Some(d) => now.checked_add(d),
            None => None,
        };
        self.db.set(key, value, deadline)
    }

    /// Writes `value` under `key` at the wall clock of the call.
    pub fn set(&mut self, key: &str, value: &str, expiry_ms: Option<u64>) -> (r: Result<(), ()>)
        ensures
            r is Ok,
            final(self).config == old(self).config,
            exists|now: u64|
                final(self).db@ == old(self).db@.insert(
                    key@,
                    (RecordV { value: value@, expiry: spec_deadline(expiry_ms, now) }),
                ),
    {
        let now = now_millis();
        self.set_at(key, value, expiry_ms, now)
    }

    /// Reads the record under `key` as of the instant `now`.
    pub fn get_at(&self, key: &str, now: u64) -> (r: Option<String>)
        ensures
            match r {
                Some(v) => crate::store::db::spec_get(self.db@, key@, now) == Some(v@),
                None => crate::store::db::spec_get(self.db@, key@, now) is None,
            },
    {
        self.db.get_at(key, now)
    }

    /// Reads the record under `key` at the wall clock of the call.
    pub fn get(&self, key: &str) -> (r: Option<String>)
        ensures
            exists|now: u64|
                match r {
                    Some(v) => crate::store::db::spec_get(self.db@, key@, now) == Some(v@),
                    None => crate::store::db::spec_get(self.db@, key@, now) is None,
                },
    {
        let now = now_millis();
        let r = self.get_at(key, now);
        proof {
            assert(match r {
                Some(v) => crate::store::db::spec_get(self.db@, key@, now) == Some(v@),
                None => crate::store::db::spec_get(self.db@, key@, now) is None,
            });
        }
        r
    }
}

} // verus!
