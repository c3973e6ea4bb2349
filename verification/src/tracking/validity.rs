//! Freshness and provenance of a tracked value.
use crate::types::{source_rank, DataSource};
use vstd::prelude::*;

verus! {

/// Age in milliseconds after which a value is stale.
pub const TRACK_STALE: i64 = 60_000;

/// Default age in milliseconds after which a value expires.
pub const TRACK_EXPIRE: i64 = 300_000;

/// Age in milliseconds after which a JAERO value expires.
pub const TRACK_EXPIRE_JAERO: i64 = 1_980_000;

/// When a value was last updated, from which source, and whether it has gone stale.
#[derive(Debug, Clone, Copy)]
pub struct DataValidity {
    pub updated: i64,
    pub next_reduce_forward: i64,
    pub source: DataSource,
    pub last_source: DataSource,
    pub stale: bool,
}

/// A value never updated.
pub open spec fn fresh_validity() -> DataValidity {
    DataValidity {
        updated: 0,
        next_reduce_forward: 0,
        source: DataSource::Invalid,
        last_source: DataSource::Invalid,
        stale: false,
    }
}

/// The state after an update from `source` at `now`: taken when the source ranks at least
/// as high as the current one, ignored otherwise.
pub open spec fn updated_validity(v: DataValidity, source: DataSource, now: i64) -> DataValidity {
    if source_rank(source) >= source_rank(v.source) {
        DataValidity { last_source: v.source, source, updated: now, stale: false, ..v }
    } else {
        v
    }
}

/// The expiry age that applies to a source: fixed for JAERO, `expiration` otherwise.
pub open spec fn expiry_for(source: DataSource, expiration: i64) -> int {
    if source == DataSource::Jaero {
        TRACK_EXPIRE_JAERO as int
    } else {
        expiration as int
    }
}

/// A value is valid at `now` when it has a source and is younger than its expiry age.
pub open spec fn valid_at(v: DataValidity, now: i64, expiration: i64) -> bool {
    v.source != DataSource::Invalid && now < v.updated + expiry_for(v.source, expiration)
}

impl DataValidity {
    /// A value never updated.
    pub fn new() -> (v: Self)
        ensures
            v == fresh_validity(),
    {
        DataValidity {
            updated: 0,
            next_reduce_forward: 0,
            source: DataSource::Invalid,
            last_source: DataSource::Invalid,
            stale: false,
        }
    }

    /// Record an update from `source` at `now`, unless the current source ranks higher.
    pub fn update(&mut self, source: DataSource, now: i64)
        ensures
            *final(self) == updated_validity(*old(self), source, now),
    {
        if source.rank() >= self.source.rank() {
            let last = self.source;
            *self = DataValidity { last_source: last, source, updated: now, stale: false, ..*self };
        }
    }

    /// Whether the value is valid at `now` (see `valid_at`).
    pub fn is_valid(&self, now: i64, expiration: i64) -> (b: bool)
        requires
            self.source != DataSource::Invalid ==> i64::MIN <= self.updated + expiry_for(
                self.source,
                expiration,
            ) <= i64::MAX,
        ensures
            b == valid_at(*self, now, expiration),
    {
        if self.source == DataSource::Invalid {
            return false;
        }
        let expire = if self.source == DataSource::Jaero {
            TRACK_EXPIRE_JAERO
        } else {
            expiration
        };
        now < self.updated + expire
    }

    /// Mark the value stale when it is at least `TRACK_STALE` old; a value without a source
    /// is left as it is.
    pub fn update_stale(&mut self, now: i64)
        requires
            old(self).source != DataSource::Invalid ==> old(self).updated + TRACK_STALE
                <= i64::MAX,
        ensures
            old(self).source == DataSource::Invalid ==> *final(self) == *old(self),
            old(self).source != DataSource::Invalid ==> *final(self) == (DataValidity {
                stale: now >= old(self).updated + TRACK_STALE,
                ..*old(self)
            }),
    {
        if self.source == DataSource::Invalid {
            return;
        }
        let stale = now >= self.updated + TRACK_STALE;
        *self = DataValidity { stale, ..*self };
    }

    /// Milliseconds since the last update, 0 if it lies in the future.
    pub fn age(&self, now: i64) -> (a: i64)
        requires
            self.updated < now ==> now - self.updated <= i64::MAX,
        ensures
            a == (if self.updated >= now {
                0
            } else {
                now - self.updated
            }),
    {
        if self.updated >= now {
            0
        } else {
            now - self.updated
        }
    }

    /// Drop the source: the value is no longer valid.
    pub fn invalidate(&mut self)
        ensures
            *final(self) == (DataValidity {
                source: DataSource::Invalid,
                stale: false,
                ..*old(self)
            }),
    {
        *self = DataValidity { source: DataSource::Invalid, stale: false, ..*self };
    }
}

impl Default for DataValidity {
    fn default() -> (v: Self)
        ensures
            v == fresh_validity(),
    {
        DataValidity::new()
    }
}

/// An update never lowers the rank of the source a value holds.
pub proof fn lemma_update_keeps_rank(v: DataValidity, source: DataSource, now: i64)
    ensures
        source_rank(updated_validity(v, source, now).source) >= source_rank(v.source),
{
}

/// An update from a source of equal or higher rank is taken: the value then holds that
/// source, was updated at `now`, is not stale, and remembers the source it replaced.
pub proof fn lemma_update_taken(v: DataValidity, source: DataSource, now: i64)
    requires
        source_rank(source) >= source_rank(v.source),
    ensures
        updated_validity(v, source, now).source == source,
        updated_validity(v, source, now).updated == now,
        !updated_validity(v, source, now).stale,
        updated_validity(v, source, now).last_source == v.source,
{
}

/// A value just updated from a real source is valid until its expiry age has passed.
pub proof fn lemma_fresh_update_valid(v: DataValidity, source: DataSource, now: i64, later: i64, expiration: i64)
    requires
        source != DataSource::Invalid,
        source_rank(source) >= source_rank(v.source),
        now <= later < now + expiry_for(source, expiration),
    ensures
        valid_at(updated_validity(v, source, now), later, expiration),
{
}

/// A value without a source is never valid; invalidating removes the source.
pub proof fn lemma_invalid_never_valid(v: DataValidity, now: i64, expiration: i64)
    ensures
        !valid_at(DataValidity { source: DataSource::Invalid, stale: false, ..v }, now, expiration),
{
}

} // verus!
