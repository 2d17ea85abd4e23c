//! Validation of service advertisements into accessory records.
//!
//! An accessory advertises itself with a set of text attributes. A record is
//! built only when every required attribute is present and parses; a failed
//! advertisement is reported per record and skipped by the caller, never
//! fatal to the whole discovery pass.

use vstd::prelude::*;
use vstd::pervasive::VecAdditionalExecFns;
use vstd::string::StringSliceAdditionalSpecFns;

verus! {

/// The UTF-8 bytes of a text value.
pub open spec fn text_bytes(s: Seq<char>) -> Seq<u8> {
    vstd::utf8::encode_utf8(s)
}

// ---------------------------------------------------------------------------
// Numeric attribute parsing
// ---------------------------------------------------------------------------

pub open spec fn is_hex_digit(b: u8) -> bool {
    (48 <= b <= 57) || (97 <= b <= 102) || (65 <= b <= 70)
}

pub open spec fn hex_digit_value(b: u8) -> nat {
    if 48 <= b <= 57 {
        (b - 48) as nat
    } else if 97 <= b <= 102 {
        (b - 87) as nat
    } else if 65 <= b <= 70 {
        (b - 55) as nat
    } else {
        0
    }
}

/// A nonempty string of hexadecimal digits.
pub open spec fn is_hex_string(s: Seq<u8>) -> bool {
    s.len() > 0 && forall|i: int| 0 <= i < s.len() ==> is_hex_digit(#[trigger] s[i])
}

/// The number a string of hexadecimal digits denotes.
pub open spec fn hex_value(s: Seq<u8>) -> nat
    decreases s.len(),
{
    if s.len() == 0 {
        0
    } else {
        hex_value(s.drop_last()) * 16 + hex_digit_value(s.last())
    }
}

pub open spec fn is_dec_digit(b: u8) -> bool {
    48 <= b <= 57
}

/// A nonempty string of decimal digits.
pub open spec fn is_dec_string(s: Seq<u8>) -> bool {
    s.len() > 0 && forall|i: int| 0 <= i < s.len() ==> is_dec_digit(#[trigger] s[i])
}

/// The number a string of decimal digits denotes.
pub open spec fn dec_value(s: Seq<u8>) -> nat
    decreases s.len(),
{
    if s.len() == 0 {
        0
    } else {
        dec_value(s.drop_last()) * 10 + (s.last() - 48) as nat
    }
}

/// A longer digit string never denotes a smaller number.
proof fn lemma_hex_value_monotonic(s: Seq<u8>, j: int, k: int)
    requires
        0 <= j <= k <= s.len(),
    ensures
        hex_value(s.take(j)) <= hex_value(s.take(k)),
    decreases k - j,
{
    if j < k {
        lemma_hex_value_monotonic(s, j, k - 1);
        assert(s.take(k).drop_last() =~= s.take(k - 1));
        assert(hex_value(s.take(k)) == hex_value(s.take(k - 1)) * 16 + hex_digit_value(
            s.take(k).last(),
        ));
    }
}

proof fn lemma_dec_value_monotonic(s: Seq<u8>, j: int, k: int)
    requires
        0 <= j <= k <= s.len(),
    ensures
        dec_value(s.take(j)) <= dec_value(s.take(k)),
    decreases k - j,
{
    if j < k {
        lemma_dec_value_monotonic(s, j, k - 1);
        assert(s.take(k).drop_last() =~= s.take(k - 1));
        assert(dec_value(s.take(k)) == dec_value(s.take(k - 1)) * 10 + (s.take(k).last()
            - 48) as nat);
    }
}

/// Parses a nonempty string of hexadecimal digits into a number, rejecting
/// anything else and any value above `u32::MAX`.
pub fn parse_hex_u32(s: &str) -> (r: Option<u32>)
    ensures
        (match r {
            Some(v) => is_hex_string(s.spec_bytes()) && hex_value(s.spec_bytes()) <= u32::MAX && v
                == hex_value(s.spec_bytes()),
            None => !is_hex_string(s.spec_bytes()) || hex_value(s.spec_bytes()) > u32::MAX,
        }),
{
    let b = s.as_bytes();
    if b.len() == 0 {
        return None;
    }
    let mut acc: u32 = 0;
    let mut i: usize = 0;
    proof {
        assert(b@.take(0) =~= Seq::<u8>::empty());
    }
    while i < b.len()
        invariant
            i <= b@.len(),
            b@ == s.spec_bytes(),
            b@.len() > 0,
            forall|j: int| 0 <= j < i ==> is_hex_digit(#[trigger] b@[j]),
            acc == hex_value(b@.take(i as int)),
        decreases b@.len() - i,
    {
        let c = b[i];
        let d: u32 = if 48 <= c && c <= 57 {
            (c - 48) as u32
        } else if 97 <= c && c <= 102 {
            (c - 87) as u32
        } else if 65 <= c && c <= 70 {
            (c - 55) as u32
        } else {
            return None;
        };
        let wide: u64 = acc as u64 * 16 + d as u64;
        proof {
            assert(b@.take(i + 1).drop_last() =~= b@.take(i as int));
            assert(b@.take(i + 1).last() == b@[i as int]);
        }
        if wide > u32::MAX as u64 {
            proof {
                lemma_hex_value_monotonic(b@, i + 1, b@.len() as int);
                assert(b@.take(b@.len() as int) =~= b@);
            }
            return None;
        }
        acc = wide as u32;
        i = i + 1;
    }
    proof {
        assert(b@.take(b@.len() as int) =~= b@);
    }
    Some(acc)
}

/// Parses a nonempty string of decimal digits into a number, rejecting
/// anything else and any value above `u32::MAX`.
pub fn parse_dec_u32(s: &str) -> (r: Option<u32>)
    ensures
        (match r {
            Some(v) => is_dec_string(s.spec_bytes()) && dec_value(s.spec_bytes()) <= u32::MAX && v
                == dec_value(s.spec_bytes()),
            None => !is_dec_string(s.spec_bytes()) || dec_value(s.spec_bytes()) > u32::MAX,
        }),
{
    let b = s.as_bytes();
    if b.len() == 0 {
        return None;
    }
    let mut acc: u32 = 0;
    let mut i: usize = 0;
    proof {
        assert(b@.take(0) =~= Seq::<u8>::empty());
    }
    while i < b.len()
        invariant
            i <= b@.len(),
            b@ == s.spec_bytes(),
            b@.len() > 0,
            forall|j: int| 0 <= j < i ==> is_dec_digit(#[trigger] b@[j]),
            acc == dec_value(b@.take(i as int)),
        decreases b@.len() - i,
    {
        let c = b[i];
        if !(48 <= c && c <= 57) {
            return None;
        }
        let d: u32 = (c - 48) as u32;
        let wide: u64 = acc as u64 * 10 + d as u64;
        proof {
            assert(b@.take(i + 1).drop_last() =~= b@.take(i as int));
            assert(b@.take(i + 1).last() == b@[i as int]);
        }
        if wide > u32::MAX as u64 {
            proof {
                lemma_dec_value_monotonic(b@, i + 1, b@.len() as int);
                assert(b@.take(b@.len() as int) =~= b@);
            }
            return None;
        }
        acc = wide as u32;
        i = i + 1;
    }
    proof {
        assert(b@.take(b@.len() as int) =~= b@);
    }
    Some(acc)
}

// ---------------------------------------------------------------------------
// Bit-flag attributes
// ---------------------------------------------------------------------------

/// A pairing-feature bit advertised by an accessory.
#[derive(Debug, Clone, Copy, PartialEq, Eq, Structural)]
pub enum PairingFeatureFlag {
    AppleAuthenticationCoprocessor,
    SoftwareAuthentication,
}

pub open spec fn spec_feature_flag_bit(f: PairingFeatureFlag) -> u8 {
    match f {
        PairingFeatureFlag::AppleAuthenticationCoprocessor => 0x01,
        PairingFeatureFlag::SoftwareAuthentication => 0x02,
    }
}

/// A status bit advertised by an accessory.
#[derive(Debug, Clone, Copy, PartialEq, Eq, Structural)]
pub enum StatusFlag {
    NotPaired,
    NotConfiguredForWiFi,
    ProblemDetected,
}

pub open spec fn spec_status_flag_bit(f: StatusFlag) -> u8 {
    match f {
        StatusFlag::NotPaired => 0x01,
        StatusFlag::NotConfiguredForWiFi => 0x02,
        StatusFlag::ProblemDetected => 0x04,
    }
}

/// The set of pairing-feature bits of an accessory; only the two defined
/// bits can be set.
#[derive(Debug, Clone, Copy, PartialEq, Eq, Structural)]
pub struct PairingFeatureFlags {
    bits: u8,
}

impl PairingFeatureFlags {
    pub closed spec fn spec_bits(&self) -> u8 {
        self.bits
    }

    /// Only defined bits are set.
    pub open spec fn wf(&self) -> bool {
        self.spec_bits() < 4
    }

    pub open spec fn spec_contains(&self, f: PairingFeatureFlag) -> bool {
        self.spec_bits() & spec_feature_flag_bit(f) != 0
    }

    /// The empty set.
    pub fn empty() -> (r: Self)
        ensures
            r.spec_bits() == 0,
            r.wf(),
    {
        PairingFeatureFlags { bits: 0 }
    }

    /// The set with exactly the given bits, if every set bit is defined.
    pub fn from_bits(bits: u32) -> (r: Option<Self>)
        ensures
            (match r {
                Some(fs) => bits < 4 && fs.spec_bits() == bits && fs.wf(),
                None => bits >= 4,
            }),
    {
        if bits < 4 {
            Some(PairingFeatureFlags { bits: bits as u8 })
        } else {
            None
        }
    }

    /// Whether the flag's bit is set.
    pub fn contains(&self, f: PairingFeatureFlag) -> (r: bool)
        ensures
            r == self.spec_contains(f),
    {
        let bit: u8 = match f {
            PairingFeatureFlag::AppleAuthenticationCoprocessor => 0x01,
            PairingFeatureFlag::SoftwareAuthentication => 0x02,
        };
        (self.bits & bit) != 0
    }
}

/// The set of status bits of an accessory; only the three defined bits can
/// be set.
#[derive(Debug, Clone, Copy, PartialEq, Eq, Structural)]
pub struct StatusFlags {
    bits: u8,
}

impl StatusFlags {
    pub closed spec fn spec_bits(&self) -> u8 {
        self.bits
    }

    /// Only defined bits are set.
    pub open spec fn wf(&self) -> bool {
        self.spec_bits() < 8
    }

    pub open spec fn spec_contains(&self, f: StatusFlag) -> bool {
        self.spec_bits() & spec_status_flag_bit(f) != 0
    }

    /// The empty set.
    pub fn empty() -> (r: Self)
        ensures
            r.spec_bits() == 0,
            r.wf(),
    {
        StatusFlags { bits: 0 }
    }

    /// The set with exactly the given bits, if every set bit is defined.
    pub fn from_bits(bits: u32) -> (r: Option<Self>)
        ensures
            (match r {
                Some(fs) => bits < 8 && fs.spec_bits() == bits && fs.wf(),
                None => bits >= 8,
            }),
    {
        if bits < 8 {
            Some(StatusFlags { bits: bits as u8 })
        } else {
            None
        }
    }

    /// Whether the flag's bit is set.
    pub fn contains(&self, f: StatusFlag) -> (r: bool)
        ensures
            r == self.spec_contains(f),
    {
        let bit: u8 = match f {
            StatusFlag::NotPaired => 0x01,
            StatusFlag::NotConfiguredForWiFi => 0x02,
            StatusFlag::ProblemDetected => 0x04,
        };
        (self.bits & bit) != 0
    }
}

/// A hexadecimal flag attribute is valid when it is a hex number whose set
/// bits all lie under `bound`.
pub open spec fn hex_flags_ok(s: Seq<u8>, bound: nat) -> bool {
    is_hex_string(s) && hex_value(s) < bound
}

/// Parses the pairing-feature-flags attribute: an absent attribute is the
/// empty set; a present one must be a hex number with only defined bits.
pub fn parse_feature_flags(txt: Option<&str>) -> (r: Option<PairingFeatureFlags>)
    ensures
        (match r {
            Some(fs) => fs.wf() && (match txt {
                None => fs.spec_bits() == 0,
                Some(s) => hex_flags_ok(s.spec_bytes(), 4) && fs.spec_bits() == hex_value(
                    s.spec_bytes(),
                ),
            }),
            None => txt is Some && !hex_flags_ok(txt->0.spec_bytes(), 4),
        }),
{
    match txt {
        None => Some(PairingFeatureFlags::empty()),
        Some(s) => match parse_hex_u32(s) {
            None => None,
            Some(v) => PairingFeatureFlags::from_bits(v),
        },
    }
}

/// Parses the status-flags attribute: an absent attribute is the empty set;
/// a present one must be a hex number with only defined bits.
pub fn parse_status_flags(txt: Option<&str>) -> (r: Option<StatusFlags>)
    ensures
        (match r {
            Some(fs) => fs.wf() && (match txt {
                None => fs.spec_bits() == 0,
                Some(s) => hex_flags_ok(s.spec_bytes(), 8) && fs.spec_bits() == hex_value(
                    s.spec_bytes(),
                ),
            }),
            None => txt is Some && !hex_flags_ok(txt->0.spec_bytes(), 8),
        }),
{
    match txt {
        None => Some(StatusFlags::empty()),
        Some(s) => match parse_hex_u32(s) {
            None => None,
            Some(v) => StatusFlags::from_bits(v),
        },
    }
}

// ---------------------------------------------------------------------------
// Accessory category
// ---------------------------------------------------------------------------

/// The accessory kind, decoded from the small integer code an accessory
/// advertises.
#[derive(Debug, Clone, Copy, PartialEq, Eq, Structural)]
pub enum AccessoryCategory {
    Other,
    Bridges,
    Fans,
    GarageDoorOpeners,
    Lighting,
    Locks,
    Outlets,
    Switches,
    Thermostats,
    Sensors,
    SecuritySystems,
    Doors,
    Windows,
    WindowCoverings,
    ProgrammableSwitches,
    Reserved16,
    IPCameras,
    VideoDoorBells,
    AirPurifiers,
    Heaters,
    AirConditioners,
    Humidifiers,
    Dehumidifiers,
    Reserved24,
    Reserved25,
    Reserved26,
    Reserved27,
    Sprinklers,
    Faucets,
    ShowerSystems,
    Reserved31,
    Remotes,
}

/// The advertised code of a category.
pub open spec fn spec_category_code(c: AccessoryCategory) -> u8 {
    match c {
        AccessoryCategory::Other => 1,
        AccessoryCategory::Bridges => 2,
        AccessoryCategory::Fans => 3,
        AccessoryCategory::GarageDoorOpeners => 4,
        AccessoryCategory::Lighting => 5,
        AccessoryCategory::Locks => 6,
        AccessoryCategory::Outlets => 7,
        AccessoryCategory::Switches => 8,
        AccessoryCategory::Thermostats => 9,
        AccessoryCategory::Sensors => 10,
        AccessoryCategory::SecuritySystems => 11,
        AccessoryCategory::Doors => 12,
        AccessoryCategory::Windows => 13,
        AccessoryCategory::WindowCoverings => 14,
        AccessoryCategory::ProgrammableSwitches => 15,
        AccessoryCategory::Reserved16 => 16,
        AccessoryCategory::IPCameras => 17,
        AccessoryCategory::VideoDoorBells => 18,
        AccessoryCategory::AirPurifiers => 19,
        AccessoryCategory::Heaters => 20,
        AccessoryCategory::AirConditioners => 21,
        AccessoryCategory::Humidifiers => 22,
        AccessoryCategory::Dehumidifiers => 23,
        AccessoryCategory::Reserved24 => 24,
        AccessoryCategory::Reserved25 => 25,
        AccessoryCategory::Reserved26 => 26,
        AccessoryCategory::Reserved27 => 27,
        AccessoryCategory::Sprinklers => 28,
        AccessoryCategory::Faucets => 29,
        AccessoryCategory::ShowerSystems => 30,
        AccessoryCategory::Reserved31 => 31,
        AccessoryCategory::Remotes => 32,
    }
}

/// The category a code stands for, if it lies in the defined range 1..=32.
pub open spec fn spec_category_from(v: u8) -> Option<AccessoryCategory> {
    match v {
        1 => Some(AccessoryCategory::Other),
        2 => Some(AccessoryCategory::Bridges),
        3 => Some(AccessoryCategory::Fans),
        4 => Some(AccessoryCategory::GarageDoorOpeners),
        5 => Some(AccessoryCategory::Lighting),
        6 => Some(AccessoryCategory::Locks),
        7 => Some(AccessoryCategory::Outlets),
        8 => Some(AccessoryCategory::Switches),
        9 => Some(AccessoryCategory::Thermostats),
        10 => Some(AccessoryCategory::Sensors),
        11 => Some(AccessoryCategory::SecuritySystems),
        12 => Some(AccessoryCategory::Doors),
        13 => Some(AccessoryCategory::Windows),
        14 => Some(AccessoryCategory::WindowCoverings),
        15 => Some(AccessoryCategory::ProgrammableSwitches),
        16 => Some(AccessoryCategory::Reserved16),
        17 => Some(AccessoryCategory::IPCameras),
        18 => Some(AccessoryCategory::VideoDoorBells),
        19 => Some(AccessoryCategory::AirPurifiers),
        20 => Some(AccessoryCategory::Heaters),
        21 => Some(AccessoryCategory::AirConditioners),
        22 => Some(AccessoryCategory::Humidifiers),
        23 => Some(AccessoryCategory::Dehumidifiers),
        24 => Some(AccessoryCategory::Reserved24),
        25 => Some(AccessoryCategory::Reserved25),
        26 => Some(AccessoryCategory::Reserved26),
        27 => Some(AccessoryCategory::Reserved27),
        28 => Some(AccessoryCategory::Sprinklers),
        29 => Some(AccessoryCategory::Faucets),
        30 => Some(AccessoryCategory::ShowerSystems),
        31 => Some(AccessoryCategory::Reserved31),
        32 => Some(AccessoryCategory::Remotes),
        _ => None,
    }
}

impl AccessoryCategory {
    /// The category a code stands for; `None` outside 1..=32. An explicit
    /// range-checked conversion: out-of-range codes are a typed failure,
    /// never reinterpreted.
    pub fn from_code(v: u8) -> (r: Option<AccessoryCategory>)
        ensures
            r == spec_category_from(v),
            r is Some <==> 1 <= v <= 32,
            r is Some ==> spec_category_code(r->0) == v,
    {
        let r = match v {
            1 => Some(AccessoryCategory::Other),
            2 => Some(AccessoryCategory::Bridges),
            3 => Some(AccessoryCategory::Fans),
            4 => Some(AccessoryCategory::GarageDoorOpeners),
            5 => Some(AccessoryCategory::Lighting),
            6 => Some(AccessoryCategory::Locks),
            7 => Some(AccessoryCategory::Outlets),
            8 => Some(AccessoryCategory::Switches),
            9 => Some(AccessoryCategory::Thermostats),
            10 => Some(AccessoryCategory::Sensors),
            11 => Some(AccessoryCategory::SecuritySystems),
            12 => Some(AccessoryCategory::Doors),
            13 => Some(AccessoryCategory::Windows),
            14 => Some(AccessoryCategory::WindowCoverings),
            15 => Some(AccessoryCategory::ProgrammableSwitches),
            16 => Some(AccessoryCategory::Reserved16),
            17 => Some(AccessoryCategory::IPCameras),
            18 => Some(AccessoryCategory::VideoDoorBells),
            19 => Some(AccessoryCategory::AirPurifiers),
            20 => Some(AccessoryCategory::Heaters),
            21 => Some(AccessoryCategory::AirConditioners),
            22 => Some(AccessoryCategory::Humidifiers),
            23 => Some(AccessoryCategory::Dehumidifiers),
            24 => Some(AccessoryCategory::Reserved24),
            25 => Some(AccessoryCategory::Reserved25),
            26 => Some(AccessoryCategory::Reserved26),
            27 => Some(AccessoryCategory::Reserved27),
            28 => Some(AccessoryCategory::Sprinklers),
            29 => Some(AccessoryCategory::Faucets),
            30 => Some(AccessoryCategory::ShowerSystems),
            31 => Some(AccessoryCategory::Reserved31),
            32 => Some(AccessoryCategory::Remotes),
            _ => None,
        };
        r
    }

    /// The advertised code of this category.
    pub fn code(self) -> (r: u8)
        ensures
            r == spec_category_code(self),
    {
        match self {
            AccessoryCategory::Other => 1,
            AccessoryCategory::Bridges => 2,
            AccessoryCategory::Fans => 3,
            AccessoryCategory::GarageDoorOpeners => 4,
            AccessoryCategory::Lighting => 5,
            AccessoryCategory::Locks => 6,
            AccessoryCategory::Outlets => 7,
            AccessoryCategory::Switches => 8,
            AccessoryCategory::Thermostats => 9,
            AccessoryCategory::Sensors => 10,
            AccessoryCategory::SecuritySystems => 11,
            AccessoryCategory::Doors => 12,
            AccessoryCategory::Windows => 13,
            AccessoryCategory::WindowCoverings => 14,
            AccessoryCategory::ProgrammableSwitches => 15,
            AccessoryCategory::Reserved16 => 16,
            AccessoryCategory::IPCameras => 17,
            AccessoryCategory::VideoDoorBells => 18,
            AccessoryCategory::AirPurifiers => 19,
            AccessoryCategory::Heaters => 20,
            AccessoryCategory::AirConditioners => 21,
            AccessoryCategory::Humidifiers => 22,
            AccessoryCategory::Dehumidifiers => 23,
            AccessoryCategory::Reserved24 => 24,
            AccessoryCategory::Reserved25 => 25,
            AccessoryCategory::Reserved26 => 26,
            AccessoryCategory::Reserved27 => 27,
            AccessoryCategory::Sprinklers => 28,
            AccessoryCategory::Faucets => 29,
            AccessoryCategory::ShowerSystems => 30,
            AccessoryCategory::Reserved31 => 31,
            AccessoryCategory::Remotes => 32,
        }
    }
}

// ---------------------------------------------------------------------------
// Addresses and advertisements
// ---------------------------------------------------------------------------

/// One network address an accessory advertises, as its textual form plus
/// which address family it belongs to.
#[derive(Debug, Clone)]
pub struct HostAddress {
    pub is_ipv4: bool,
    pub text: String,
}

/// The first address of the wanted family, scanning in advertised order.
pub open spec fn spec_find_address(addrs: Seq<HostAddress>, want_v4: bool) -> Option<HostAddress>
    decreases addrs.len(),
{
    if addrs.len() == 0 {
        None
    } else if addrs[0].is_ipv4 == want_v4 {
        Some(addrs[0])
    } else {
        spec_find_address(addrs.skip(1), want_v4)
    }
}

/// The address a record is built from: the first IPv4 address if any,
/// otherwise the first IPv6 address, otherwise nothing.
pub open spec fn spec_pick_address(addrs: Seq<HostAddress>) -> Option<HostAddress> {
    match spec_find_address(addrs, true) {
        Some(a) => Some(a),
        None => spec_find_address(addrs, false),
    }
}

proof fn lemma_find_address_hit(addrs: Seq<HostAddress>, want_v4: bool, i: int)
    requires
        0 <= i < addrs.len(),
        addrs[i].is_ipv4 == want_v4,
        forall|j: int| 0 <= j < i ==> (#[trigger] addrs[j]).is_ipv4 != want_v4,
    ensures
        spec_find_address(addrs, want_v4) == Some(addrs[i]),
    decreases i,
{
    if i > 0 {
        lemma_find_address_hit(addrs.skip(1), want_v4, i - 1);
    }
}

proof fn lemma_find_address_miss(addrs: Seq<HostAddress>, want_v4: bool)
    requires
        forall|j: int| 0 <= j < addrs.len() ==> (#[trigger] addrs[j]).is_ipv4 != want_v4,
    ensures
        spec_find_address(addrs, want_v4) is None,
    decreases addrs.len(),
{
    if addrs.len() > 0 {
        lemma_find_address_miss(addrs.skip(1), want_v4);
    }
}

/// The index the record's address comes from: the first IPv4 address if
/// any, otherwise the first address at all (which is then IPv6).
fn pick_address_index(addrs: &Vec<HostAddress>) -> (r: Option<usize>)
    ensures
        (match r {
            Some(i) => i < addrs@.len() && spec_pick_address(addrs@) == Some(addrs@[i as int]),
            None => spec_pick_address(addrs@) is None,
        }),
{
    let mut i: usize = 0;
    while i < addrs.len()
        invariant
            i <= addrs@.len(),
            forall|j: int| 0 <= j < i ==> !(#[trigger] addrs@[j]).is_ipv4,
        decreases addrs@.len() - i,
    {
        if addrs[i].is_ipv4 {
            proof {
                lemma_find_address_hit(addrs@, true, i as int);
            }
            return Some(i);
        }
        i = i + 1;
    }
    proof {
        lemma_find_address_miss(addrs@, true);
    }
    if addrs.len() > 0 {
        proof {
            lemma_find_address_hit(addrs@, false, 0);
        }
        Some(0)
    } else {
        proof {
            lemma_find_address_miss(addrs@, false);
        }
        None
    }
}

/// Whether an advertisement carries at least one IPv4 address; a discovery
/// pass restricted to IPv4 skips an advertisement without one.
pub fn advertisement_has_ipv4(addrs: &Vec<HostAddress>) -> (r: bool)
    ensures
        r == exists|i: int| 0 <= i < addrs@.len() && (#[trigger] addrs@[i]).is_ipv4,
{
    let mut i: usize = 0;
    while i < addrs.len()
        invariant
            i <= addrs@.len(),
            forall|j: int| 0 <= j < i ==> !(#[trigger] addrs@[j]).is_ipv4,
        decreases addrs@.len() - i,
    {
        if addrs[i].is_ipv4 {
            return true;
        }
        i = i + 1;
    }
    false
}

/// Everything discovery learns about one accessory before validation: the
/// advertised addresses and port, and each known text attribute if present.
#[derive(Debug, Clone)]
pub struct Advertisement {
    pub addresses: Vec<HostAddress>,
    pub port: u16,
    pub id: Option<String>,
    pub model: Option<String>,
    pub configuration_number: Option<String>,
    pub current_state_number: Option<String>,
    pub pairing_feature_flags: Option<String>,
    pub status_flags: Option<String>,
    pub setup_hash: Option<String>,
    pub category: Option<String>,
    pub protocol_version: Option<String>,
}

/// The advertisement attribute a validation failure names.
#[derive(Debug, Clone, Copy, PartialEq, Eq, Structural)]
pub enum TxtKey {
    Id,
    Model,
    ConfigurationNumber,
    StateNumber,
    PairingFeatureFlags,
    StatusFlags,
    Category,
    ProtocolVersion,
}

/// The service-discovery session could not be opened at all; unlike a
/// per-record failure this is fatal to the whole discovery call.
#[derive(Debug, Clone, Copy, PartialEq, Eq, Structural)]
pub enum DiscoverySessionError {
    SessionUnavailable,
}

/// Why an advertisement failed to yield an accessory record; the record is
/// skipped, the discovery pass goes on.
#[derive(Debug, Clone, Copy, PartialEq, Eq, Structural)]
pub enum DiscoveryAttributeError {
    /// The advertisement carries no address at all.
    NoAddress,
    /// A required attribute is absent.
    Missing(TxtKey),
    /// An attribute is present but does not parse.
    Malformed(TxtKey),
}

/// A validated accessory record.
#[derive(Debug, Clone)]
pub struct HapAccessory {
    pub address: HostAddress,
    pub port: u16,
    pub id: String,
    pub model: String,
    pub configuration_number: u32,
    pub current_state_number: u32,
    pub pairing_feature_flags: PairingFeatureFlags,
    pub status_flags: StatusFlags,
    pub setup_hash: Option<String>,
    pub category: AccessoryCategory,
    pub protocol_version: String,
}

/// A decimal attribute that must fit an unsigned 32-bit number.
pub open spec fn dec_u32_ok(s: Seq<u8>) -> bool {
    is_dec_string(s) && dec_value(s) <= u32::MAX
}

/// A category attribute: a decimal number in the defined range 1..=32.
pub open spec fn category_ok(s: Seq<u8>) -> bool {
    is_dec_string(s) && 1 <= dec_value(s) <= 32
}

/// The first validation failure of an advertisement, in the order the
/// attributes are checked, or `None` when a record can be built.
pub open spec fn spec_accessory_error(adv: Advertisement) -> Option<DiscoveryAttributeError> {
    if spec_pick_address(adv.addresses@) is None {
        Some(DiscoveryAttributeError::NoAddress)
    } else if !(adv.id is Some) {
        Some(DiscoveryAttributeError::Missing(TxtKey::Id))
    } else if !(adv.model is Some) {
        Some(DiscoveryAttributeError::Missing(TxtKey::Model))
    } else if !(adv.configuration_number is Some) {
        Some(DiscoveryAttributeError::Missing(TxtKey::ConfigurationNumber))
    } else if !dec_u32_ok(text_bytes(adv.configuration_number->0@)) {
        Some(DiscoveryAttributeError::Malformed(TxtKey::ConfigurationNumber))
    } else if !(adv.current_state_number is Some) {
        Some(DiscoveryAttributeError::Missing(TxtKey::StateNumber))
    } else if !dec_u32_ok(text_bytes(adv.current_state_number->0@)) {
        Some(DiscoveryAttributeError::Malformed(TxtKey::StateNumber))
    } else if adv.pairing_feature_flags is Some && !hex_flags_ok(
        text_bytes(adv.pairing_feature_flags->0@),
        4,
    ) {
        Some(DiscoveryAttributeError::Malformed(TxtKey::PairingFeatureFlags))
    } else if adv.status_flags is Some && !hex_flags_ok(text_bytes(adv.status_flags->0@), 8) {
        Some(DiscoveryAttributeError::Malformed(TxtKey::StatusFlags))
    } else if !(adv.category is Some) {
        Some(DiscoveryAttributeError::Missing(TxtKey::Category))
    } else if !category_ok(text_bytes(adv.category->0@)) {
        Some(DiscoveryAttributeError::Malformed(TxtKey::Category))
    } else if !(adv.protocol_version is Some) {
        Some(DiscoveryAttributeError::Missing(TxtKey::ProtocolVersion))
    } else {
        None
    }
}

/// Accessory filtering: an advertisement that lacks the required
/// identifier attribute never yields a record, whatever else it carries.
pub proof fn lemma_missing_id_rejected(adv: Advertisement)
    requires
        !(adv.id is Some),
    ensures
        spec_accessory_error(adv) is Some,
{
}

/// Builds an accessory record from an advertisement, validating every
/// required attribute; the error names the first attribute that fails, in
/// checking order.
pub fn accessory_from_advertisement(adv: &Advertisement) -> (r: Result<
    HapAccessory,
    DiscoveryAttributeError,
>)
    ensures
        (match r {
            Ok(acc) => spec_accessory_error(*adv) is None && spec_pick_address(adv.addresses@)
                is Some && acc.address.is_ipv4 == spec_pick_address(adv.addresses@)->0.is_ipv4
                && acc.address.text@ == spec_pick_address(adv.addresses@)->0.text@ && acc.port
                == adv.port && acc.id@ == adv.id->0@ && acc.model@ == adv.model->0@
                && acc.configuration_number == dec_value(
                text_bytes(adv.configuration_number->0@),
            ) && acc.current_state_number == dec_value(text_bytes(adv.current_state_number->0@))
                && acc.pairing_feature_flags.spec_bits() == (match adv.pairing_feature_flags {
                Some(s) => hex_value(text_bytes(s@)),
                None => 0,
            }) && acc.status_flags.spec_bits() == (match adv.status_flags {
                Some(s) => hex_value(text_bytes(s@)),
                None => 0,
            }) && (match adv.setup_hash {
                Some(s) => acc.setup_hash is Some && acc.setup_hash->0@ == s@,
                None => acc.setup_hash is None,
            }) && spec_category_code(acc.category) == dec_value(text_bytes(adv.category->0@))
                && acc.protocol_version@ == adv.protocol_version->0@,
            Err(e) => spec_accessory_error(*adv) == Some(e),
        }),
{
    let address = match pick_address_index(&adv.addresses) {
        Some(i) => {
            let a = &adv.addresses[i];
            HostAddress { is_ipv4: a.is_ipv4, text: a.text.clone() }
        },
        None => {
            return Err(DiscoveryAttributeError::NoAddress);
        },
    };
    let id = match &adv.id {
        Some(s) => s.clone(),
        None => {
            return Err(DiscoveryAttributeError::Missing(TxtKey::Id));
        },
    };
    let model = match &adv.model {
        Some(s) => s.clone(),
        None => {
            return Err(DiscoveryAttributeError::Missing(TxtKey::Model));
        },
    };
    let configuration_number = match &adv.configuration_number {
        Some(s) => match parse_dec_u32(s.as_str()) {
            Some(v) => v,
            None => {
                return Err(DiscoveryAttributeError::Malformed(TxtKey::ConfigurationNumber));
            },
        },
        None => {
            return Err(DiscoveryAttributeError::Missing(TxtKey::ConfigurationNumber));
        },
    };
    let current_state_number = match &adv.current_state_number {
        Some(s) => match parse_dec_u32(s.as_str()) {
            Some(v) => v,
            None => {
                return Err(DiscoveryAttributeError::Malformed(TxtKey::StateNumber));
            },
        },
        None => {
            return Err(DiscoveryAttributeError::Missing(TxtKey::StateNumber));
        },
    };
    let pf_txt = match &adv.pairing_feature_flags {
        Some(s) => Some(s.as_str()),
        None => None,
    };
    let pairing_feature_flags = match parse_feature_flags(pf_txt) {
        Some(fs) => fs,
        None => {
            return Err(DiscoveryAttributeError::Malformed(TxtKey::PairingFeatureFlags));
        },
    };
    let sf_txt = match &adv.status_flags {
        Some(s) => Some(s.as_str()),
        None => None,
    };
    let status_flags = match parse_status_flags(sf_txt) {
        Some(fs) => fs,
        None => {
            return Err(DiscoveryAttributeError::Malformed(TxtKey::StatusFlags));
        },
    };
    let setup_hash = match &adv.setup_hash {
        Some(s) => Some(s.clone()),
        None => None,
    };
    let category = match &adv.category {
        Some(s) => match parse_dec_u32(s.as_str()) {
            Some(v) => {
                if v > 255 {
                    return Err(DiscoveryAttributeError::Malformed(TxtKey::Category));
                } else {
                    match AccessoryCategory::from_code(v as u8) {
                        Some(c) => c,
                        None => {
                            return Err(DiscoveryAttributeError::Malformed(TxtKey::Category));
                        },
                    }
                }
            },
            None => {
                return Err(DiscoveryAttributeError::Malformed(TxtKey::Category));
            },
        },
        None => {
            return Err(DiscoveryAttributeError::Missing(TxtKey::Category));
        },
    };
    let protocol_version = match &adv.protocol_version {
        Some(s) => s.clone(),
        None => {
            return Err(DiscoveryAttributeError::Missing(TxtKey::ProtocolVersion));
        },
    };
    Ok(
        HapAccessory {
            address,
            port: adv.port,
            id,
            model,
            configuration_number,
            current_state_number,
            pairing_feature_flags,
            status_flags,
            setup_hash,
            category,
            protocol_version,
        },
    )
}

impl HapAccessory {
    /// The accessory reports a pairing when its not-paired bit is clear.
    pub fn is_paired(&self) -> (r: bool)
        ensures
            r == !self.status_flags.spec_contains(StatusFlag::NotPaired),
    {
        !self.status_flags.contains(StatusFlag::NotPaired)
    }

    /// The accessory reports a network configuration when its
    /// not-configured bit is clear.
    pub fn is_configured_for_wifi(&self) -> (r: bool)
        ensures
            r == !self.status_flags.spec_contains(StatusFlag::NotConfiguredForWiFi),
    {
        !self.status_flags.contains(StatusFlag::NotConfiguredForWiFi)
    }

    /// Whether the accessory reports a problem.
    pub fn has_problem_detected(&self) -> (r: bool)
        ensures
            r == self.status_flags.spec_contains(StatusFlag::ProblemDetected),
    {
        self.status_flags.contains(StatusFlag::ProblemDetected)
    }
}

// ---------------------------------------------------------------------------
// The discovery result set, keyed by accessory id
// ---------------------------------------------------------------------------

/// No two records carry the same id.
pub open spec fn ids_unique(s: Seq<HapAccessory>) -> bool {
    forall|i: int, j: int| 0 <= i < j < s.len() ==> (#[trigger] s[i]).id@ != (#[trigger] s[j]).id@
}

/// The position of the record with the given id, scanning in order.
pub open spec fn spec_id_index(s: Seq<HapAccessory>, id: Seq<char>) -> Option<int>
    decreases s.len(),
{
    if s.len() == 0 {
        None
    } else if s[0].id@ == id {
        Some(0int)
    } else {
        match spec_id_index(s.skip(1), id) {
            Some(i) => Some(i + 1),
            None => None,
        }
    }
}

proof fn lemma_id_index_hit(s: Seq<HapAccessory>, id: Seq<char>, i: int)
    requires
        0 <= i < s.len(),
        s[i].id@ == id,
        forall|j: int| 0 <= j < i ==> (#[trigger] s[j]).id@ != id,
    ensures
        spec_id_index(s, id) == Some(i),
    decreases i,
{
    if i > 0 {
        lemma_id_index_hit(s.skip(1), id, i - 1);
    }
}

proof fn lemma_id_index_miss(s: Seq<HapAccessory>, id: Seq<char>)
    requires
        forall|j: int| 0 <= j < s.len() ==> (#[trigger] s[j]).id@ != id,
    ensures
        spec_id_index(s, id) is None,
    decreases s.len(),
{
    if s.len() > 0 {
        lemma_id_index_miss(s.skip(1), id);
    }
}

/// Inserts a record into the result set keyed by id: a record with the same
/// id is overwritten in place, any other record is kept, a new id is
/// appended.
pub fn insert_accessory(list: &mut Vec<HapAccessory>, acc: HapAccessory)
    requires
        ids_unique(old(list)@),
    ensures
        ids_unique(final(list)@),
        (match spec_id_index(old(list)@, acc.id@) {
            Some(i) => final(list)@ == old(list)@.update(i, acc),
            None => final(list)@ == old(list)@.push(acc),
        }),
{
    let mut i: usize = 0;
    while i < list.len()
        invariant
            i <= list@.len(),
            list@ == old(list)@,
            ids_unique(list@),
            forall|j: int| 0 <= j < i ==> (#[trigger] list@[j]).id@ != acc.id@,
        decreases list@.len() - i,
    {
        if list[i].id == acc.id {
            proof {
                lemma_id_index_hit(list@, acc.id@, i as int);
            }
            let ghost before = list@;
            list.set(i, acc);
            proof {
                assert forall|k: int, l: int| 0 <= k < l < list@.len() implies (
                #[trigger] list@[k]).id@ != (#[trigger] list@[l]).id@ by {
                    assert(before[k].id@ != before[l].id@);
                    assert(list@[k].id@ == before[k].id@);
                    assert(list@[l].id@ == before[l].id@);
                }
            }
            return ;
        }
        i = i + 1;
    }
    proof {
        lemma_id_index_miss(list@, acc.id@);
    }
    list.push(acc);
}

} // verus!
