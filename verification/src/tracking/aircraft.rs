//! What the messages have said of one aircraft: the integer state that messages are folded
//! into.
use crate::tracking::validity::{
    expiry_for, fresh_validity, updated_validity, valid_at, DataValidity, TRACK_EXPIRE,
    TRACK_EXPIRE_JAERO,
};
use crate::types::{
    lemma_byte_array, source_rank, zero_array, AddrType, AirGround, DataSource, Emergency,
    ModesMessage, INVALID_ALTITUDE,
};
use vstd::prelude::*;

verus! {

/// The tracked state of one aircraft.
#[derive(Debug, Clone, Copy)]
pub struct AircraftState {
    pub addr: u32,
    pub addrtype: AddrType,
    /// When the aircraft was first tracked (milliseconds).
    pub seen: i64,
    /// When its position was last decoded (milliseconds, 0 if never).
    pub seen_pos: i64,
    pub messages: u32,
    pub baro_alt: i32,
    pub geom_alt: i32,
    pub geom_delta: i32,
    pub baro_rate: i32,
    pub geom_rate: i32,
    pub ias: u32,
    pub tas: u32,
    /// The callsign bytes of the last message that carried a non-empty one.
    pub callsign: [u8; 16],
    pub squawk: u32,
    pub category: u8,
    pub emergency: Emergency,
    pub airground: AirGround,
    pub cpr_odd_lat: u32,
    pub cpr_odd_lon: u32,
    pub cpr_even_lat: u32,
    pub cpr_even_lon: u32,
    pub callsign_valid: DataValidity,
    pub baro_alt_valid: DataValidity,
    pub geom_alt_valid: DataValidity,
    pub gs_valid: DataValidity,
    pub position_valid: DataValidity,
    pub squawk_valid: DataValidity,
    pub nav_altitude_mcp: u32,
    pub nav_altitude_fms: u32,
    pub pos_nic: u32,
    pub pos_rc: u32,
    pub adsb_version: i32,
    pub receiver_count: u32,
    pub receiver_id: u64,
}

/// A newly tracked aircraft: nothing known but its address, type and when it was first seen.
pub open spec fn new_aircraft(addr: u32, addrtype: AddrType, now: i64) -> AircraftState {
    AircraftState {
        addr,
        addrtype,
        seen: now,
        seen_pos: 0,
        messages: 0,
        baro_alt: INVALID_ALTITUDE,
        geom_alt: INVALID_ALTITUDE,
        geom_delta: 0,
        baro_rate: 0,
        geom_rate: 0,
        ias: 0,
        tas: 0,
        callsign: zero_array::<16>(),
        squawk: 0,
        category: 0,
        emergency: Emergency::NoEmergency,
        airground: AirGround::Invalid,
        cpr_odd_lat: 0,
        cpr_odd_lon: 0,
        cpr_even_lat: 0,
        cpr_even_lon: 0,
        callsign_valid: fresh_validity(),
        baro_alt_valid: fresh_validity(),
        geom_alt_valid: fresh_validity(),
        gs_valid: fresh_validity(),
        position_valid: fresh_validity(),
        squawk_valid: fresh_validity(),
        nav_altitude_mcp: 0,
        nav_altitude_fms: 0,
        pos_nic: 0,
        pos_rc: 0,
        adsb_version: -1i32,
        receiver_count: 0,
        receiver_id: 0,
    }
}

/// `v` after an update from `source` at `now` when `carried`, unchanged otherwise.
pub open spec fn maybe_updated(v: DataValidity, carried: bool, source: DataSource, now: i64) -> DataValidity {
    if carried {
        updated_validity(v, source, now)
    } else {
        v
    }
}

/// The validity test does not overflow: with a source, its expiry moment fits 64 bits.
pub open spec fn expiry_fits(v: DataValidity, expiration: i64) -> bool {
    v.source != DataSource::Invalid ==> i64::MIN <= v.updated + expiry_for(v.source, expiration)
        <= i64::MAX
}

/// The callsign carries text: some byte is not NUL.
pub open spec fn callsign_has_text(cs: [u8; 16]) -> bool {
    exists|i: int| 0 <= i < 16 && #[trigger] cs@[i] != 0u8
}

/// Both altitudes are valid at `now` (by the default expiry), so their difference is kept.
pub open spec fn both_altitudes_valid(baro: DataValidity, geom: DataValidity, now: i64) -> bool {
    valid_at(baro, now, TRACK_EXPIRE) && valid_at(geom, now, TRACK_EXPIRE)
}

/// Altitudes: each one the message carries is taken with its validity; when both are then
/// valid, their difference is kept.
pub open spec fn altitude_applied(a: AircraftState, msg: ModesMessage, now: i64) -> AircraftState {
    let baro_v = maybe_updated(a.baro_alt_valid, msg.baro_alt_valid, msg.source, now);
    let geom_v = maybe_updated(a.geom_alt_valid, msg.geom_alt_valid, msg.source, now);
    let baro = if msg.baro_alt_valid {
        msg.baro_alt
    } else {
        a.baro_alt
    };
    let geom = if msg.geom_alt_valid {
        msg.geom_alt
    } else {
        a.geom_alt
    };
    AircraftState {
        baro_alt_valid: baro_v,
        geom_alt_valid: geom_v,
        baro_alt: baro,
        geom_alt: geom,
        geom_delta: if both_altitudes_valid(baro_v, geom_v, now) {
            (geom - baro) as i32
        } else {
            a.geom_delta
        },
        ..a
    }
}

/// What the altitude step needs to compute without overflow.
pub open spec fn altitude_fits(a: AircraftState, msg: ModesMessage, now: i64) -> bool {
    let baro_v = maybe_updated(a.baro_alt_valid, msg.baro_alt_valid, msg.source, now);
    let geom_v = maybe_updated(a.geom_alt_valid, msg.geom_alt_valid, msg.source, now);
    let baro = if msg.baro_alt_valid {
        msg.baro_alt
    } else {
        a.baro_alt
    };
    let geom = if msg.geom_alt_valid {
        msg.geom_alt
    } else {
        a.geom_alt
    };
    &&& expiry_fits(baro_v, TRACK_EXPIRE)
    &&& (valid_at(baro_v, now, TRACK_EXPIRE) ==> expiry_fits(geom_v, TRACK_EXPIRE))
    &&& (both_altitudes_valid(baro_v, geom_v, now) ==> i32::MIN <= geom - baro <= i32::MAX)
}

/// Callsign, speeds and squawk: each carried value is taken, with its validity; a callsign
/// without text is ignored.
pub open spec fn identity_applied(a: AircraftState, msg: ModesMessage, now: i64) -> AircraftState {
    let take_cs = msg.callsign_valid && callsign_has_text(msg.callsign);
    AircraftState {
        callsign_valid: maybe_updated(a.callsign_valid, take_cs, msg.source, now),
        callsign: if take_cs {
            msg.callsign
        } else {
            a.callsign
        },
        gs_valid: maybe_updated(a.gs_valid, msg.gs_valid, msg.source, now),
        ias: if msg.ias_valid {
            msg.ias
        } else {
            a.ias
        },
        tas: if msg.tas_valid {
            msg.tas
        } else {
            a.tas
        },
        squawk_valid: maybe_updated(a.squawk_valid, msg.squawk_valid, msg.source, now),
        squawk: if msg.squawk_valid {
            msg.squawk_hex
        } else {
            a.squawk
        },
        ..a
    }
}

/// Emergency, selected altitudes, accuracy, the raw CPR position and the vertical rate; the
/// message count goes up by one.
pub open spec fn status_applied(a: AircraftState, msg: ModesMessage) -> AircraftState {
    let odd = msg.cpr_valid && msg.cpr_odd;
    let even = msg.cpr_valid && !msg.cpr_odd;
    AircraftState {
        emergency: if msg.emergency != Emergency::NoEmergency {
            msg.emergency
        } else {
            a.emergency
        },
        nav_altitude_mcp: if msg.nav.mcp_altitude_valid {
            msg.nav.mcp_altitude
        } else {
            a.nav_altitude_mcp
        },
        nav_altitude_fms: if msg.nav.fms_altitude_valid {
            msg.nav.fms_altitude
        } else {
            a.nav_altitude_fms
        },
        pos_nic: msg.accuracy.nac_p,
        pos_rc: msg.accuracy.nac_p,
        cpr_odd_lat: if odd {
            msg.cpr_lat
        } else {
            a.cpr_odd_lat
        },
        cpr_odd_lon: if odd {
            msg.cpr_lon
        } else {
            a.cpr_odd_lon
        },
        cpr_even_lat: if even {
            msg.cpr_lat
        } else {
            a.cpr_even_lat
        },
        cpr_even_lon: if even {
            msg.cpr_lon
        } else {
            a.cpr_even_lon
        },
        baro_rate: if msg.baro_rate_valid {
            msg.baro_rate
        } else {
            a.baro_rate
        },
        messages: (a.messages + 1) as u32,
        ..a
    }
}

/// The state after a message at `now`: altitudes, then identity and speeds, then status.
pub open spec fn message_applied(a: AircraftState, msg: ModesMessage, now: i64) -> AircraftState {
    status_applied(identity_applied(altitude_applied(a, msg, now), msg, now), msg)
}

/// A message can be folded in without overflow.
pub open spec fn message_fits(a: AircraftState, msg: ModesMessage, now: i64) -> bool {
    altitude_fits(a, msg, now) && a.messages < u32::MAX
}

/// Both halves of a CPR position pair have been received (a half of all zeros counts as
/// missing).
pub open spec fn pair_ready(a: AircraftState) -> bool {
    (a.cpr_even_lat != 0 || a.cpr_even_lon != 0) && (a.cpr_odd_lat != 0 || a.cpr_odd_lon != 0)
}

fn take_validity(v: DataValidity, carried: bool, source: DataSource, now: i64) -> (r: DataValidity)
    ensures
        r == maybe_updated(v, carried, source, now),
{
    let mut r = v;
    if carried {
        r.update(source, now);
    }
    r
}

fn has_text(cs: &[u8; 16]) -> (b: bool)
    ensures
        b == callsign_has_text(*cs),
{
    let mut i: usize = 0;
    while i < 16
        invariant
            i <= 16,
            forall|j: int| 0 <= j < i ==> cs@[j] == 0u8,
        decreases 16 - i,
    {
        if cs[i] != 0 {
            return true;
        }
        i = i + 1;
    }
    false
}

fn expiry_in_range(v: &DataValidity) -> (b: bool)
    ensures
        b == expiry_fits(*v, TRACK_EXPIRE),
{
    if v.source == DataSource::Invalid {
        return true;
    }
    let expire = if v.source == DataSource::Jaero {
        TRACK_EXPIRE_JAERO
    } else {
        TRACK_EXPIRE
    };
    v.updated.checked_add(expire).is_some()
}

fn altitude_step(a: AircraftState, msg: &ModesMessage, now: i64) -> (r: AircraftState)
    requires
        altitude_fits(a, *msg, now),
    ensures
        r == altitude_applied(a, *msg, now),
{
    let baro_v = take_validity(a.baro_alt_valid, msg.baro_alt_valid, msg.source, now);
    let geom_v = take_validity(a.geom_alt_valid, msg.geom_alt_valid, msg.source, now);
    let baro = if msg.baro_alt_valid {
        msg.baro_alt
    } else {
        a.baro_alt
    };
    let geom = if msg.geom_alt_valid {
        msg.geom_alt
    } else {
        a.geom_alt
    };
    let both = baro_v.is_valid(now, TRACK_EXPIRE) && geom_v.is_valid(now, TRACK_EXPIRE);
    let delta = if both {
        geom - baro
    } else {
        a.geom_delta
    };
    AircraftState {
        baro_alt_valid: baro_v,
        geom_alt_valid: geom_v,
        baro_alt: baro,
        geom_alt: geom,
        geom_delta: delta,
        ..a
    }
}

fn identity_step(a: AircraftState, msg: &ModesMessage, now: i64) -> (r: AircraftState)
    ensures
        r == identity_applied(a, *msg, now),
{
    let take_cs = msg.callsign_valid && has_text(&msg.callsign);
    AircraftState {
        callsign_valid: take_validity(a.callsign_valid, take_cs, msg.source, now),
        callsign: if take_cs {
            msg.callsign
        } else {
            a.callsign
        },
        gs_valid: take_validity(a.gs_valid, msg.gs_valid, msg.source, now),
        ias: if msg.ias_valid {
            msg.ias
        } else {
            a.ias
        },
        tas: if msg.tas_valid {
            msg.tas
        } else {
            a.tas
        },
        squawk_valid: take_validity(a.squawk_valid, msg.squawk_valid, msg.source, now),
        squawk: if msg.squawk_valid {
            msg.squawk_hex
        } else {
            a.squawk
        },
        ..a
    }
}

fn status_step(a: AircraftState, msg: &ModesMessage) -> (r: AircraftState)
    requires
        a.messages < u32::MAX,
    ensures
        r == status_applied(a, *msg),
{
    let odd = msg.cpr_valid && msg.cpr_odd;
    let even = msg.cpr_valid && !msg.cpr_odd;
    AircraftState {
        emergency: if msg.emergency != Emergency::NoEmergency {
            msg.emergency
        } else {
            a.emergency
        },
        nav_altitude_mcp: if msg.nav.mcp_altitude_valid {
            msg.nav.mcp_altitude
        } else {
            a.nav_altitude_mcp
        },
        nav_altitude_fms: if msg.nav.fms_altitude_valid {
            msg.nav.fms_altitude
        } else {
            a.nav_altitude_fms
        },
        pos_nic: msg.accuracy.nac_p,
        pos_rc: msg.accuracy.nac_p,
        cpr_odd_lat: if odd {
            msg.cpr_lat
        } else {
            a.cpr_odd_lat
        },
        cpr_odd_lon: if odd {
            msg.cpr_lon
        } else {
            a.cpr_odd_lon
        },
        cpr_even_lat: if even {
            msg.cpr_lat
        } else {
            a.cpr_even_lat
        },
        cpr_even_lon: if even {
            msg.cpr_lon
        } else {
            a.cpr_even_lon
        },
        baro_rate: if msg.baro_rate_valid {
            msg.baro_rate
        } else {
            a.baro_rate
        },
        messages: a.messages + 1,
        ..a
    }
}

impl AircraftState {
    /// A newly tracked aircraft (see `new_aircraft`).
    pub fn new(addr: u32, addrtype: AddrType, now: i64) -> (a: Self)
        ensures
            a == new_aircraft(addr, addrtype, now),
    {
        let a = AircraftState {
            addr,
            addrtype,
            seen: now,
            seen_pos: 0,
            messages: 0,
            baro_alt: INVALID_ALTITUDE,
            geom_alt: INVALID_ALTITUDE,
            geom_delta: 0,
            baro_rate: 0,
            geom_rate: 0,
            ias: 0,
            tas: 0,
            callsign: [0u8; 16],
            squawk: 0,
            category: 0,
            emergency: Emergency::NoEmergency,
            airground: AirGround::Invalid,
            cpr_odd_lat: 0,
            cpr_odd_lon: 0,
            cpr_even_lat: 0,
            cpr_even_lon: 0,
            callsign_valid: DataValidity::new(),
            baro_alt_valid: DataValidity::new(),
            geom_alt_valid: DataValidity::new(),
            gs_valid: DataValidity::new(),
            position_valid: DataValidity::new(),
            squawk_valid: DataValidity::new(),
            nav_altitude_mcp: 0,
            nav_altitude_fms: 0,
            pos_nic: 0,
            pos_rc: 0,
            adsb_version: -1,
            receiver_count: 0,
            receiver_id: 0,
        };
        proof {
            assert(a.callsign@ =~= Seq::new(16, |i: int| 0u8));
            lemma_byte_array(a.callsign);
        }
        a
    }

    /// Fold one message received at `now` into the state (see `message_applied`).
    pub fn apply_message(&mut self, msg: &ModesMessage, now: i64)
        requires
            message_fits(*old(self), *msg, now),
        ensures
            *final(self) == message_applied(*old(self), *msg, now),
    {
        let a1 = altitude_step(*self, msg, now);
        let a2 = identity_step(a1, msg, now);
        *self = status_step(a2, msg);
    }

    /// Whether a message at `now` can be folded in without overflow (see `message_fits`).
    pub fn fits_message(&self, msg: &ModesMessage, now: i64) -> (b: bool)
        ensures
            b == message_fits(*self, *msg, now),
    {
        if self.messages == u32::MAX {
            return false;
        }
        let baro_v = take_validity(self.baro_alt_valid, msg.baro_alt_valid, msg.source, now);
        let geom_v = take_validity(self.geom_alt_valid, msg.geom_alt_valid, msg.source, now);
        if !expiry_in_range(&baro_v) {
            return false;
        }
        if !baro_v.is_valid(now, TRACK_EXPIRE) {
            return true;
        }
        if !expiry_in_range(&geom_v) {
            return false;
        }
        if !geom_v.is_valid(now, TRACK_EXPIRE) {
            return true;
        }
        let baro = if msg.baro_alt_valid {
            msg.baro_alt
        } else {
            self.baro_alt
        };
        let geom = if msg.geom_alt_valid {
            msg.geom_alt
        } else {
            self.geom_alt
        };
        let d = geom as i64 - baro as i64;
        i32::MIN as i64 <= d && d <= i32::MAX as i64
    }

    /// Whether both halves of a CPR position pair are present (see `pair_ready`).
    pub fn cpr_pair_ready(&self) -> (b: bool)
        ensures
            b == pair_ready(*self),
    {
        (self.cpr_even_lat != 0 || self.cpr_even_lon != 0) && (self.cpr_odd_lat != 0
            || self.cpr_odd_lon != 0)
    }

    /// Record a position decoded at `now` from a message of `source`.
    pub fn record_position(&mut self, source: DataSource, now: i64)
        ensures
            *final(self) == (AircraftState {
                position_valid: updated_validity(old(self).position_valid, source, now),
                seen_pos: now,
                ..*old(self)
            }),
    {
        let v = take_validity(self.position_valid, true, source, now);
        *self = AircraftState { position_valid: v, seen_pos: now, ..*self };
    }

    /// Whether the aircraft has outlived `expire` milliseconds since it was first tracked.
    pub fn is_expired(&self, now: i64, expire: i64) -> (b: bool)
        requires
            i64::MIN <= self.seen + expire <= i64::MAX,
        ensures
            b == !(now < self.seen + expire),
    {
        !(now < self.seen + expire)
    }
}

/// Every message adds exactly one to the count and leaves the address, its type and the
/// time of first sight as they were.
pub proof fn lemma_message_keeps_identity(a: AircraftState, msg: ModesMessage, now: i64)
    requires
        a.messages < u32::MAX,
    ensures
        message_applied(a, msg, now).messages == a.messages + 1,
        message_applied(a, msg, now).addr == a.addr,
        message_applied(a, msg, now).addrtype == a.addrtype,
        message_applied(a, msg, now).seen == a.seen,
{
}

/// A message that carries both altitudes, from a real source at least as trusted as the
/// ones they were last taken from, sets the geometric-barometric difference to theirs.
pub proof fn lemma_both_altitudes_set_delta(a: AircraftState, msg: ModesMessage, now: i64)
    requires
        msg.baro_alt_valid,
        msg.geom_alt_valid,
        msg.source != DataSource::Invalid,
        source_rank(msg.source) >= source_rank(a.baro_alt_valid.source),
        source_rank(msg.source) >= source_rank(a.geom_alt_valid.source),
        now + expiry_for(msg.source, TRACK_EXPIRE) <= i64::MAX,
        i32::MIN <= msg.geom_alt - msg.baro_alt <= i32::MAX,
    ensures
        message_applied(a, msg, now).geom_delta == msg.geom_alt - msg.baro_alt,
        message_applied(a, msg, now).baro_alt == msg.baro_alt,
        message_applied(a, msg, now).geom_alt == msg.geom_alt,
{
}

/// A message that carries no data leaves every tracked value in place but the count, the
/// accuracy, and the altitude difference, which is taken afresh while both altitudes are
/// valid.
pub proof fn lemma_silent_message_keeps_values(a: AircraftState, msg: ModesMessage, now: i64)
    requires
        !msg.baro_alt_valid,
        !msg.geom_alt_valid,
        !msg.callsign_valid,
        !msg.gs_valid,
        !msg.ias_valid,
        !msg.tas_valid,
        !msg.squawk_valid,
        !msg.cpr_valid,
        !msg.baro_rate_valid,
        !msg.nav.mcp_altitude_valid,
        !msg.nav.fms_altitude_valid,
        msg.emergency == Emergency::NoEmergency,
    ensures
        message_applied(a, msg, now) == (AircraftState {
            messages: (a.messages + 1) as u32,
            pos_nic: msg.accuracy.nac_p,
            pos_rc: msg.accuracy.nac_p,
            geom_delta: if both_altitudes_valid(a.baro_alt_valid, a.geom_alt_valid, now) {
                (a.geom_alt - a.baro_alt) as i32
            } else {
                a.geom_delta
            },
            ..a
        }),
{
}

/// Every value a message carries is stored as the aircraft's value of that kind, and a value
/// it does not carry stays as it was: the barometric and geometric altitudes, the indicated
/// and true airspeeds, the squawk, the selected altitudes, the vertical rate, the even or odd
/// CPR half, an emergency, and a callsign with text. The identity is never changed and the
/// message count goes up by one.
pub proof fn lemma_carried_values_stored(a: AircraftState, msg: ModesMessage, now: i64)
    ensures
        message_applied(a, msg, now).ias == (if msg.ias_valid { msg.ias } else { a.ias }),
        message_applied(a, msg, now).tas == (if msg.tas_valid { msg.tas } else { a.tas }),
        message_applied(a, msg, now).baro_alt == (if msg.baro_alt_valid { msg.baro_alt } else { a.baro_alt }),
        message_applied(a, msg, now).geom_alt == (if msg.geom_alt_valid { msg.geom_alt } else { a.geom_alt }),
        message_applied(a, msg, now).squawk == (if msg.squawk_valid { msg.squawk_hex } else { a.squawk }),
        message_applied(a, msg, now).baro_rate == (if msg.baro_rate_valid { msg.baro_rate } else { a.baro_rate }),
        message_applied(a, msg, now).nav_altitude_mcp == (if msg.nav.mcp_altitude_valid {
            msg.nav.mcp_altitude
        } else {
            a.nav_altitude_mcp
        }),
        message_applied(a, msg, now).nav_altitude_fms == (if msg.nav.fms_altitude_valid {
            msg.nav.fms_altitude
        } else {
            a.nav_altitude_fms
        }),
        message_applied(a, msg, now).emergency == (if msg.emergency != Emergency::NoEmergency {
            msg.emergency
        } else {
            a.emergency
        }),
        msg.cpr_valid && msg.cpr_odd ==> message_applied(a, msg, now).cpr_odd_lat == msg.cpr_lat
            && message_applied(a, msg, now).cpr_odd_lon == msg.cpr_lon
            && message_applied(a, msg, now).cpr_even_lat == a.cpr_even_lat
            && message_applied(a, msg, now).cpr_even_lon == a.cpr_even_lon,
        msg.cpr_valid && !msg.cpr_odd ==> message_applied(a, msg, now).cpr_even_lat == msg.cpr_lat
            && message_applied(a, msg, now).cpr_even_lon == msg.cpr_lon
            && message_applied(a, msg, now).cpr_odd_lat == a.cpr_odd_lat
            && message_applied(a, msg, now).cpr_odd_lon == a.cpr_odd_lon,
        !msg.cpr_valid ==> message_applied(a, msg, now).cpr_odd_lat == a.cpr_odd_lat
            && message_applied(a, msg, now).cpr_odd_lon == a.cpr_odd_lon
            && message_applied(a, msg, now).cpr_even_lat == a.cpr_even_lat
            && message_applied(a, msg, now).cpr_even_lon == a.cpr_even_lon,
        message_applied(a, msg, now).callsign == (if msg.callsign_valid && callsign_has_text(msg.callsign) {
            msg.callsign
        } else {
            a.callsign
        }),
        message_applied(a, msg, now).pos_nic == msg.accuracy.nac_p,
        message_applied(a, msg, now).pos_rc == msg.accuracy.nac_p,
        message_applied(a, msg, now).addr == a.addr,
        message_applied(a, msg, now).addrtype == a.addrtype,
        message_applied(a, msg, now).messages == a.messages + 1 || a.messages == u32::MAX,
{
}

} // verus!
