//! Shared Mode S data types.
use vstd::prelude::*;

verus! {

/// Where a piece of data came from, in increasing order of trust.
#[derive(Debug, Clone, Copy, PartialEq, Eq, Structural, PartialOrd, Ord, Hash)]
pub enum DataSource {
    Invalid,
    Indirect,
    ModeAc,
    Sbs,
    Mlat,
    ModeS,
    Jaero,
    ModeSChecked,
    Tisb,
    Adsr,
    Nt,
    Adsb,
    Priority,
}

/// Trust rank of a data source (0 = invalid, 12 = priority).
pub open spec fn source_rank(s: DataSource) -> u8 {
    match s {
        DataSource::Invalid => 0,
        DataSource::Indirect => 1,
        DataSource::ModeAc => 2,
        DataSource::Sbs => 3,
        DataSource::Mlat => 4,
        DataSource::ModeS => 5,
        DataSource::Jaero => 6,
        DataSource::ModeSChecked => 7,
        DataSource::Tisb => 8,
        DataSource::Adsr => 9,
        DataSource::Nt => 10,
        DataSource::Adsb => 11,
        DataSource::Priority => 12,
    }
}

impl DataSource {
    /// Trust rank of this source (its position in the declaration order).
    pub fn rank(&self) -> (r: u8)
        ensures
            r == source_rank(*self),
    {
        match self {
            DataSource::Invalid => 0,
            DataSource::Indirect => 1,
            DataSource::ModeAc => 2,
            DataSource::Sbs => 3,
            DataSource::Mlat => 4,
            DataSource::ModeS => 5,
            DataSource::Jaero => 6,
            DataSource::ModeSChecked => 7,
            DataSource::Tisb => 8,
            DataSource::Adsr => 9,
            DataSource::Nt => 10,
            DataSource::Adsb => 11,
            DataSource::Priority => 12,
        }
    }
}

/// Kind of address an aircraft is known by.
#[derive(Debug, Clone, Copy, PartialEq, Eq, Structural, PartialOrd, Ord, Hash)]
pub enum AddrType {
    AdsbIcao,
    AdsbIcaoNt,
    AdsrIcao,
    TisbIcao,
    Jaero,
    Mlat,
    Other,
    ModeS,
    AdsbOther,
    AdsrOther,
    TisbTrackfile,
    TisbOther,
    ModeA,
    Unknown,
}

/// Flag bit marking an address that is not an ICAO address.
pub const NON_ICAO_ADDRESS: u32 = 0x0100_0000;

/// Placeholder address.
pub const BADDR: u32 = 0xff123456;

/// Unit an altitude is reported in.
#[derive(Debug, Clone, Copy, PartialEq, Eq, Structural)]
pub enum AltitudeUnit {
    Feet,
    Meters,
}

/// Reference an altitude is measured against.
#[derive(Debug, Clone, Copy, PartialEq, Eq, Structural)]
pub enum AltitudeSource {
    Baro,
    Geom,
}

/// Marker value of an altitude that could not be decoded.
pub const INVALID_ALTITUDE: i32 = -9999;

/// Comm-B message format inferred from the BDS register.
#[derive(Debug, Clone, Copy, PartialEq, Eq, Structural)]
pub enum CommBFormat {
    Unknown,
    Ambiguous,
    EmptyResponse,
    DatalinkCaps,
    GicbCaps,
    AircraftIdent,
    AcasRA,
    VerticalIntent,
    TrackTurn,
    HeadingSpeed,
    MeteorologicalRoutine,
}

impl Default for CommBFormat {
    fn default() -> (f: Self)
        ensures
            f == CommBFormat::Unknown,
    {
        CommBFormat::Unknown
    }
}

/// Air/ground state.
#[derive(Debug, Clone, Copy, PartialEq, Eq, Structural)]
pub enum AirGround {
    Invalid,
    Ground,
    Airborne,
    Uncertain,
}

/// Emergency/priority status.
#[derive(Debug, Clone, Copy, PartialEq, Eq, Structural)]
pub enum Emergency {
    NoEmergency,
    General,
    Lifeguard,
    Minfuel,
    Nordo,
    Unlawful,
    Downed,
    Reserved,
}

/// Source integrity level supplement.
#[derive(Debug, Clone, Copy, PartialEq, Eq, Structural)]
pub enum SilType {
    Invalid,
    Unknown,
    PerSample,
    PerHour,
}

/// Kind of CPR position encoding.
#[derive(Debug, Clone, Copy, PartialEq, Eq, Structural)]
pub enum CprType {
    Invalid,
    Surface,
    Airborne,
    Coarse,
}

/// Reference of a heading.
#[derive(Debug, Clone, Copy, PartialEq, Eq, Structural)]
pub enum HeadingType {
    Invalid,
    GroundTrack,
    True,
    Magnetic,
    MagneticOrTrue,
    TrackOrHeading,
}

/// Source of the selected altitude.
#[derive(Debug, Clone, Copy, PartialEq, Eq, Structural)]
pub enum NavAltitudeSource {
    Invalid,
    Unknown,
    Aircraft,
    Mcp,
    Fms,
}

/// Accuracy/integrity fields from target state or operational status messages.
#[derive(Debug, Clone, Copy)]
pub struct MessageAccuracy {
    pub nic_a_valid: bool,
    pub nic_b_valid: bool,
    pub nic_c_valid: bool,
    pub nic_baro_valid: bool,
    pub nac_p_valid: bool,
    pub nac_v_valid: bool,
    pub gva_valid: bool,
    pub sda_valid: bool,
    pub nic_a: bool,
    pub nic_b: bool,
    pub nic_c: bool,
    pub nic_baro: bool,
    pub nac_p: u32,
    pub nac_v: u32,
    pub sil: u32,
    pub gva: u32,
    pub sda: u32,
    pub sil_type: SilType,
}

/// Accuracy fields with nothing reported.
pub open spec fn no_accuracy() -> MessageAccuracy {
    MessageAccuracy {
        nic_a_valid: false,
        nic_b_valid: false,
        nic_c_valid: false,
        nic_baro_valid: false,
        nac_p_valid: false,
        nac_v_valid: false,
        gva_valid: false,
        sda_valid: false,
        nic_a: false,
        nic_b: false,
        nic_c: false,
        nic_baro: false,
        nac_p: 0,
        nac_v: 0,
        sil: 0,
        gva: 0,
        sda: 0,
        sil_type: SilType::Invalid,
    }
}

impl Default for MessageAccuracy {
    fn default() -> (a: Self)
        ensures
            a == no_accuracy(),
    {
        MessageAccuracy {
            nic_a_valid: false,
            nic_b_valid: false,
            nic_c_valid: false,
            nic_baro_valid: false,
            nac_p_valid: false,
            nac_v_valid: false,
            gva_valid: false,
            sda_valid: false,
            nic_a: false,
            nic_b: false,
            nic_c: false,
            nic_baro: false,
            nac_p: 0,
            nac_v: 0,
            sil: 0,
            gva: 0,
            sda: 0,
            sil_type: SilType::Invalid,
        }
    }
}

/// Operational status message fields.
#[derive(Debug, Clone, Copy)]
pub struct OpStatus {
    pub valid: bool,
    pub version: u8,
    pub sil_type: SilType,
    pub om_acas_ra: bool,
    pub om_ident: bool,
    pub om_atc: bool,
    pub om_saf: bool,
    pub cc_acas: bool,
    pub cc_cdti: bool,
    pub cc_1090_in: bool,
    pub cc_arv: bool,
    pub cc_ts: bool,
    pub cc_tc: u8,
    pub cc_uat_in: bool,
    pub cc_poa: bool,
    pub cc_b2_low: bool,
    pub cc_lw_valid: bool,
    pub cc_lw: u32,
    pub cc_antenna_offset: u32,
}

/// Navigation state from target state and status messages and Comm-B BDS 4,0.
#[derive(Debug, Clone, Copy)]
pub struct NavState {
    pub fms_altitude: u32,
    pub mcp_altitude: u32,
    pub heading_valid: bool,
    pub fms_altitude_valid: bool,
    pub mcp_altitude_valid: bool,
    pub qnh_valid: bool,
    pub modes_valid: bool,
    pub altitude_source: NavAltitudeSource,
    /// Autopilot mode flags (autopilot 1, VNAV 2, altitude hold 4, approach 8, LNAV 16,
    /// TCAS 32).
    pub modes: u8,
}

/// Navigation state with nothing reported.
pub open spec fn no_nav() -> NavState {
    NavState {
        fms_altitude: 0,
        mcp_altitude: 0,
        heading_valid: false,
        fms_altitude_valid: false,
        mcp_altitude_valid: false,
        qnh_valid: false,
        modes_valid: false,
        altitude_source: NavAltitudeSource::Invalid,
        modes: 0,
    }
}

impl Default for NavState {
    fn default() -> (n: Self)
        ensures
            n == no_nav(),
    {
        NavState {
            fms_altitude: 0,
            mcp_altitude: 0,
            heading_valid: false,
            fms_altitude_valid: false,
            mcp_altitude_valid: false,
            qnh_valid: false,
            modes_valid: false,
            altitude_source: NavAltitudeSource::Invalid,
            modes: 0,
        }
    }
}

/// Ground movement as reported on the air, before any conversion to knots or degrees.
#[derive(Debug, Clone, Copy, PartialEq, Eq, Structural)]
pub enum Motion {
    /// Nothing reported.
    Unknown,
    /// Surface position movement code (1-124): the ground speed.
    SurfaceMovement { code: u32 },
    /// Airborne velocity over ground: east-west and north-south speeds in knots with the
    /// sign bits of the message; they give both ground speed and track.
    GroundVector { ew_negative: bool, ew_speed: u32, ns_negative: bool, ns_speed: u32 },
    /// Airborne velocity heading, in 1/1024 of a full turn: the track.
    Heading { raw: u32 },
}

/// A decoded Mode S message.
#[derive(Debug, Clone, Copy)]
pub struct ModesMessage {
    pub msg: [u8; 14],
    pub verbatim: [u8; 14],
    pub timestamp: i64,
    pub sys_timestamp: i64,
    pub receiver_id: u64,
    pub source: DataSource,
    pub addrtype: AddrType,
    pub remote: bool,
    pub msgtype: i32,
    pub msgbits: i32,
    pub crc: u32,
    pub corrected_bits: i32,
    pub crc_ok: bool,
    pub corrected: bool,
    pub addr: u32,
    pub ca: u32,
    pub cf: u32,
    pub aa: u32,
    pub me: [u8; 7],
    pub mb: [u8; 7],
    pub md: [u8; 10],
    pub mv: [u8; 7],
    pub metype: u32,
    pub mesub: u32,
    pub commb_format: CommBFormat,
    pub baro_alt_valid: bool,
    pub geom_alt_valid: bool,
    pub track_valid: bool,
    pub gs_valid: bool,
    pub ias_valid: bool,
    pub tas_valid: bool,
    pub mach_valid: bool,
    pub baro_rate_valid: bool,
    pub geom_rate_valid: bool,
    pub squawk_valid: bool,
    pub callsign_valid: bool,
    pub cpr_valid: bool,
    pub category_valid: bool,
    pub baro_alt: i32,
    pub baro_alt_unit: AltitudeUnit,
    pub geom_alt: i32,
    pub geom_alt_unit: AltitudeUnit,
    pub geom_delta: i32,
    /// What the message says of ground speed and track (see `Motion`).
    pub motion: Motion,
    pub ias: u32,
    pub tas: u32,
    pub baro_rate: i32,
    pub geom_rate: i32,
    pub squawk_hex: u32,
    pub callsign: [u8; 16],
    pub category: u8,
    pub emergency: Emergency,
    pub cpr_type: CprType,
    pub cpr_lat: u32,
    pub cpr_lon: u32,
    pub cpr_odd: bool,
    pub cpr_decoded: bool,
    pub cpr_relative: bool,
    pub airground: AirGround,
    pub accuracy: MessageAccuracy,
    pub op_status: Option<OpStatus>,
    pub nav: NavState,
}

/// The array `a` holds exactly the bytes `s`.
pub open spec fn array_holds<const N: usize>(a: [u8; N], s: Seq<u8>) -> bool {
    a@ == s
}

/// The array of `N` bytes holding `s` (meaningful when `s` has length `N`).
pub open spec fn byte_array<const N: usize>(s: Seq<u8>) -> [u8; N] {
    choose|a: [u8; N]| array_holds(a, s)
}

/// An array is the `byte_array` of its own contents.
pub proof fn lemma_byte_array<const N: usize>(a: [u8; N])
    ensures
        byte_array::<N>(a@) == a,
{
    assert(array_holds(a, a@));
    let b = byte_array::<N>(a@);
    assert(b =~= a);
}

/// The array of `N` zero bytes with its first `k` bytes taken from `s`.
spec fn prefix_array<const N: usize>(s: Seq<u8>, k: nat) -> [u8; N]
    decreases k,
{
    if k == 0 {
        vstd::array::spec_array_fill_for_copy_type::<u8, N>(0u8)
    } else {
        vstd::array::spec_array_update(prefix_array::<N>(s, (k - 1) as nat), k - 1, s[k - 1])
    }
}

proof fn lemma_prefix_array<const N: usize>(s: Seq<u8>, k: nat)
    requires
        k <= N,
        k <= s.len(),
    ensures
        prefix_array::<N>(s, k)@.len() == N,
        forall|i: int| 0 <= i < k ==> prefix_array::<N>(s, k)@[i] == s[i],
    decreases k,
{
    broadcast use vstd::array::group_array_axioms;

    if k > 0 {
        lemma_prefix_array::<N>(s, (k - 1) as nat);
    } else {
        let a = vstd::array::spec_array_fill_for_copy_type::<u8, N>(0u8);
        vstd::array::array_len_matches_n(&a);
    }
}

/// Every sequence of `N` bytes is held by some array, so `byte_array` gives it back.
pub proof fn lemma_byte_array_view<const N: usize>(s: Seq<u8>)
    requires
        s.len() == N,
    ensures
        byte_array::<N>(s)@ == s,
{
    lemma_prefix_array::<N>(s, N as nat);
    let w = prefix_array::<N>(s, N as nat);
    assert(w@ =~= s);
    assert(array_holds(w, s));
}

/// `n` zero bytes as an array.
pub open spec fn zero_array<const N: usize>() -> [u8; N] {
    byte_array::<N>(Seq::new(N as nat, |i: int| 0u8))
}

/// A message with no field decoded.
pub open spec fn empty_message() -> ModesMessage {
    ModesMessage {
        msg: zero_array::<14>(),
        verbatim: zero_array::<14>(),
        timestamp: 0,
        sys_timestamp: 0,
        receiver_id: 0,
        source: DataSource::Invalid,
        addrtype: AddrType::Unknown,
        remote: false,
        msgtype: 0,
        msgbits: 0,
        crc: 0,
        corrected_bits: 0,
        crc_ok: false,
        corrected: false,
        addr: 0,
        ca: 0,
        cf: 0,
        aa: 0,
        me: zero_array::<7>(),
        mb: zero_array::<7>(),
        md: zero_array::<10>(),
        mv: zero_array::<7>(),
        metype: 0,
        mesub: 0,
        commb_format: CommBFormat::Unknown,
        baro_alt_valid: false,
        geom_alt_valid: false,
        track_valid: false,
        gs_valid: false,
        ias_valid: false,
        tas_valid: false,
        mach_valid: false,
        baro_rate_valid: false,
        geom_rate_valid: false,
        squawk_valid: false,
        callsign_valid: false,
        cpr_valid: false,
        category_valid: false,
        baro_alt: INVALID_ALTITUDE,
        baro_alt_unit: AltitudeUnit::Feet,
        geom_alt: INVALID_ALTITUDE,
        geom_alt_unit: AltitudeUnit::Feet,
        geom_delta: 0,
        motion: Motion::Unknown,
        ias: 0,
        tas: 0,
        baro_rate: 0,
        geom_rate: 0,
        squawk_hex: 0,
        callsign: zero_array::<16>(),
        category: 0,
        emergency: Emergency::NoEmergency,
        cpr_type: CprType::Invalid,
        cpr_lat: 0,
        cpr_lon: 0,
        cpr_odd: false,
        cpr_decoded: false,
        cpr_relative: false,
        airground: AirGround::Invalid,
        accuracy: no_accuracy(),
        op_status: None,
        nav: no_nav(),
    }
}

impl Default for ModesMessage {
    fn default() -> (m: Self)
        ensures
            m == empty_message(),
    {
        let m = ModesMessage {
            msg: [0u8; 14],
            verbatim: [0u8; 14],
            timestamp: 0,
            sys_timestamp: 0,
            receiver_id: 0,
            source: DataSource::Invalid,
            addrtype: AddrType::Unknown,
            remote: false,
            msgtype: 0,
            msgbits: 0,
            crc: 0,
            corrected_bits: 0,
            crc_ok: false,
            corrected: false,
            addr: 0,
            ca: 0,
            cf: 0,
            aa: 0,
            me: [0u8; 7],
            mb: [0u8; 7],
            md: [0u8; 10],
            mv: [0u8; 7],
            metype: 0,
            mesub: 0,
            commb_format: CommBFormat::default(),
            baro_alt_valid: false,
            geom_alt_valid: false,
            track_valid: false,
            gs_valid: false,
            ias_valid: false,
            tas_valid: false,
            mach_valid: false,
            baro_rate_valid: false,
            geom_rate_valid: false,
            squawk_valid: false,
            callsign_valid: false,
            cpr_valid: false,
            category_valid: false,
            baro_alt: INVALID_ALTITUDE,
            baro_alt_unit: AltitudeUnit::Feet,
            geom_alt: INVALID_ALTITUDE,
            geom_alt_unit: AltitudeUnit::Feet,
            geom_delta: 0,
            motion: Motion::Unknown,
            ias: 0,
            tas: 0,
            baro_rate: 0,
            geom_rate: 0,
            squawk_hex: 0,
            callsign: [0u8; 16],
            category: 0,
            emergency: Emergency::NoEmergency,
            cpr_type: CprType::Invalid,
            cpr_lat: 0,
            cpr_lon: 0,
            cpr_odd: false,
            cpr_decoded: false,
            cpr_relative: false,
            airground: AirGround::Invalid,
            accuracy: MessageAccuracy::default(),
            op_status: None,
            nav: NavState::default(),
        };
        proof {
            assert(m.msg@ =~= Seq::new(14, |i: int| 0u8));
            assert(m.verbatim@ =~= Seq::new(14, |i: int| 0u8));
            assert(m.me@ =~= Seq::new(7, |i: int| 0u8));
            assert(m.mb@ =~= Seq::new(7, |i: int| 0u8));
            assert(m.md@ =~= Seq::new(10, |i: int| 0u8));
            assert(m.mv@ =~= Seq::new(7, |i: int| 0u8));
            assert(m.callsign@ =~= Seq::new(16, |i: int| 0u8));
            lemma_byte_array(m.msg);
            lemma_byte_array(m.verbatim);
            lemma_byte_array(m.me);
            lemma_byte_array(m.mb);
            lemma_byte_array(m.md);
            lemma_byte_array(m.mv);
            lemma_byte_array(m.callsign);
        }
        m
    }
}

} // verus!
