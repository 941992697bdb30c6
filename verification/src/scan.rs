//! The discovery engine's verified core: ARP request construction and
//! reply parsing on raw Ethernet frames, subnet enumeration, MAC
//! rendering, device enrichment, and the deduplicated, sorted device
//! table the scan returns.

use vstd::prelude::*;
use crate::ip::{Ipv4Address, ipv4_chars, format_ipv4, spec_parse_ipv4, lemma_parse_of_format};
use crate::oui::{OuiDb, pairs_view, table_lookup, lower_prefix8};

verus! {

/// A MAC address held as its six octets.
#[derive(Clone, Copy, Debug, PartialEq, Eq, Structural)]
pub struct MacAddress {
    pub b0: u8,
    pub b1: u8,
    pub b2: u8,
    pub b3: u8,
    pub b4: u8,
    pub b5: u8,
}

/// The character for a hexadecimal digit value, lowercase.
pub open spec fn hex_digit_char(d: int) -> char {
    if d == 0 { '0' }
    else if d == 1 { '1' }
    else if d == 2 { '2' }
    else if d == 3 { '3' }
    else if d == 4 { '4' }
    else if d == 5 { '5' }
    else if d == 6 { '6' }
    else if d == 7 { '7' }
    else if d == 8 { '8' }
    else if d == 9 { '9' }
    else if d == 10 { 'a' }
    else if d == 11 { 'b' }
    else if d == 12 { 'c' }
    else if d == 13 { 'd' }
    else if d == 14 { 'e' }
    else { 'f' }
}

/// Two lowercase hex digits of a byte.
pub open spec fn byte_hex(b: u8) -> Seq<char> {
    seq![hex_digit_char(b as int / 16), hex_digit_char(b as int % 16)]
}

/// The canonical colon-hex lowercase rendering of a MAC address.
pub open spec fn mac_chars(m: MacAddress) -> Seq<char> {
    byte_hex(m.b0) + seq![':'] + byte_hex(m.b1) + seq![':'] + byte_hex(m.b2) + seq![':']
        + byte_hex(m.b3) + seq![':'] + byte_hex(m.b4) + seq![':'] + byte_hex(m.b5)
}

/// A one-character string slice for a hexadecimal digit value.
fn hex_digit_str(d: u8) -> (r: &'static str)
    requires
        d < 16,
    ensures
        r@ =~= seq![hex_digit_char(d as int)],
{
    proof {
        reveal_strlit("0");
        reveal_strlit("1");
        reveal_strlit("2");
        reveal_strlit("3");
        reveal_strlit("4");
        reveal_strlit("5");
        reveal_strlit("6");
        reveal_strlit("7");
        reveal_strlit("8");
        reveal_strlit("9");
        reveal_strlit("a");
        reveal_strlit("b");
        reveal_strlit("c");
        reveal_strlit("d");
        reveal_strlit("e");
        reveal_strlit("f");
    }
    match d {
        0 => "0",
        1 => "1",
        2 => "2",
        3 => "3",
        4 => "4",
        5 => "5",
        6 => "6",
        7 => "7",
        8 => "8",
        9 => "9",
        10 => "a",
        11 => "b",
        12 => "c",
        13 => "d",
        14 => "e",
        _ => "f",
    }
}

/// Appends the two hex digits of one byte.
fn push_byte_hex(out: &mut String, b: u8)
    ensures
        final(out)@ == old(out)@ + byte_hex(b),
{
    out.append(hex_digit_str(b / 16));
    out.append(hex_digit_str(b % 16));
    proof {
        assert(final(out)@ =~= old(out)@ + byte_hex(b));
    }
}

/// Renders a MAC address in colon-hex lowercase form.
pub fn format_mac(m: &MacAddress) -> (r: String)
    ensures
        r@ == mac_chars(*m),
{
    proof {
        reveal_strlit(":");
    }
    let mut s = String::new();
    push_byte_hex(&mut s, m.b0);
    s.append(":");
    push_byte_hex(&mut s, m.b1);
    s.append(":");
    push_byte_hex(&mut s, m.b2);
    s.append(":");
    push_byte_hex(&mut s, m.b3);
    s.append(":");
    push_byte_hex(&mut s, m.b4);
    s.append(":");
    push_byte_hex(&mut s, m.b5);
    proof {
        assert(s@ =~= mac_chars(*m));
    }
    s
}

/// The 42-byte Ethernet frame of one ARP request: broadcast
/// destination, the sender's MAC and IPv4, a zero target MAC, and the
/// probed address.
pub open spec fn arp_request_frame(src_mac: MacAddress, src_ip: Ipv4Address,
    target_ip: Ipv4Address) -> Seq<u8> {
    seq![
        0xffu8, 0xffu8, 0xffu8, 0xffu8, 0xffu8, 0xffu8,
        src_mac.b0, src_mac.b1, src_mac.b2, src_mac.b3, src_mac.b4, src_mac.b5,
        0x08u8, 0x06u8,
        0x00u8, 0x01u8,
        0x08u8, 0x00u8,
        0x06u8, 0x04u8,
        0x00u8, 0x01u8,
        src_mac.b0, src_mac.b1, src_mac.b2, src_mac.b3, src_mac.b4, src_mac.b5,
        src_ip.o0, src_ip.o1, src_ip.o2, src_ip.o3,
        0x00u8, 0x00u8, 0x00u8, 0x00u8, 0x00u8, 0x00u8,
        target_ip.o0, target_ip.o1, target_ip.o2, target_ip.o3,
    ]
}

/// Builds the ARP request frame for one probed address.
pub fn build_arp_request(src_mac: &MacAddress, src_ip: &Ipv4Address, target_ip: &Ipv4Address)
    -> (r: Vec<u8>)
    ensures
        r@ == arp_request_frame(*src_mac, *src_ip, *target_ip),
{
    let mut f: Vec<u8> = Vec::new();
    f.push(0xff);
    f.push(0xff);
    f.push(0xff);
    f.push(0xff);
    f.push(0xff);
    f.push(0xff);
    f.push(src_mac.b0);
    f.push(src_mac.b1);
    f.push(src_mac.b2);
    f.push(src_mac.b3);
    f.push(src_mac.b4);
    f.push(src_mac.b5);
    f.push(0x08);
    f.push(0x06);
    f.push(0x00);
    f.push(0x01);
    f.push(0x08);
    f.push(0x00);
    f.push(0x06);
    f.push(0x04);
    f.push(0x00);
    f.push(0x01);
    f.push(src_mac.b0);
    f.push(src_mac.b1);
    f.push(src_mac.b2);
    f.push(src_mac.b3);
    f.push(src_mac.b4);
    f.push(src_mac.b5);
    f.push(src_ip.o0);
    f.push(src_ip.o1);
    f.push(src_ip.o2);
    f.push(src_ip.o3);
    f.push(0x00);
    f.push(0x00);
    f.push(0x00);
    f.push(0x00);
    f.push(0x00);
    f.push(0x00);
    f.push(target_ip.o0);
    f.push(target_ip.o1);
    f.push(target_ip.o2);
    f.push(target_ip.o3);
    proof {
        assert(f@ =~= arp_request_frame(*src_mac, *src_ip, *target_ip));
    }
    f
}

/// What a received frame yields: the sender of an ARP reply carried in
/// a long-enough Ethernet frame with the ARP ethertype, or nothing.
pub open spec fn spec_parse_arp_reply(f: Seq<u8>) -> Option<(Ipv4Address, MacAddress)> {
    if f.len() >= 42 && f[12] == 0x08u8 && f[13] == 0x06u8 && f[20] == 0x00u8 && f[21] == 0x02u8 {
        Some((
            Ipv4Address { o0: f[28], o1: f[29], o2: f[30], o3: f[31] },
            MacAddress { b0: f[22], b1: f[23], b2: f[24], b3: f[25], b4: f[26], b5: f[27] },
        ))
    } else {
        None
    }
}

/// Extracts the sender of an ARP reply from a received frame, exactly
/// as `spec_parse_arp_reply` describes.
pub fn parse_arp_reply(f: &Vec<u8>) -> (r: Option<(Ipv4Address, MacAddress)>)
    ensures
        r == spec_parse_arp_reply(f@),
{
    if f.len() < 42 {
        return None;
    }
    if !(f[12] == 0x08 && f[13] == 0x06) {
        return None;
    }
    if !(f[20] == 0x00 && f[21] == 0x02) {
        return None;
    }
    Some((
        Ipv4Address { o0: f[28], o1: f[29], o2: f[30], o3: f[31] },
        MacAddress { b0: f[22], b1: f[23], b2: f[24], b3: f[25], b4: f[26], b5: f[27] },
    ))
}

/// Powers of two.
pub open spec fn pow2(k: nat) -> int
    decreases k,
{
    if k == 0 {
        1
    } else {
        2 * pow2((k - 1) as nat)
    }
}

/// Powers of two grow with the exponent.
proof fn lemma_pow2_monotone(a: nat, b: nat)
    requires
        a <= b,
    ensures
        pow2(a) <= pow2(b),
        pow2(a) >= 1,
    decreases b,
{
    if a < b {
        lemma_pow2_monotone(a, (b - 1) as nat);
    } else if b > 0 {
        lemma_pow2_monotone((a - 1) as nat, (b - 1) as nat);
    }
}

/// The exponent law of powers of two.
proof fn lemma_pow2_adds(a: nat, b: nat)
    ensures
        pow2(a + b) == pow2(a) * pow2(b),
    decreases b,
{
    if b == 0 {
        assert(pow2(a) * 1 == pow2(a)) by (nonlinear_arith);
    } else {
        lemma_pow2_adds(a, (b - 1) as nat);
        assert(pow2(a + b) == 2 * pow2((a + b - 1) as nat));
        assert(pow2(a) * (2 * pow2((b - 1) as nat)) == 2 * (pow2(a) * pow2((b - 1) as nat)))
            by (nonlinear_arith);
    }
}

/// The value of the 32nd power of two.
proof fn lemma_pow2_32()
    ensures
        pow2(32) == 0x1_0000_0000,
{
    reveal_with_fuel(pow2, 33);
}

/// Computes a power of two that fits in 64 bits.
pub fn pow2_u64(k: u32) -> (r: u64)
    requires
        k <= 32,
    ensures
        r as int == pow2(k as nat),
        r >= 1,
{
    proof {
        lemma_pow2_32();
    }
    let mut r: u64 = 1;
    let mut i: u32 = 0;
    while i < k
        invariant
            0 <= i <= k <= 32,
            r as int == pow2(i as nat),
            1 <= r as int <= 0x1_0000_0000,
        decreases k - i,
    {
        proof {
            lemma_pow2_monotone((i + 1) as nat, 32);
            lemma_pow2_32();
        }
        r = r * 2;
        i = i + 1;
    }
    r
}

/// The number of addresses in a subnet with the given prefix length.
pub open spec fn subnet_size(prefix: nat) -> int {
    pow2((32 - prefix) as nat)
}

/// The numeric network base address of `ip` under the prefix.
pub open spec fn spec_subnet_base(ip: Ipv4Address, prefix: nat) -> int {
    ip.spec_value() - ip.spec_value() % subnet_size(prefix)
}

/// Computes the numeric network base of an interface address.
pub fn subnet_base_value(ip: &Ipv4Address, prefix: u8) -> (r: u32)
    requires
        prefix <= 32,
    ensures
        r as int == spec_subnet_base(*ip, prefix as nat),
        r as int % subnet_size(prefix as nat) == 0,
        r as int + subnet_size(prefix as nat) <= 0x1_0000_0000,
{
    let block = pow2_u64(32 - (prefix as u32));
    let v = ip.value() as u64;
    proof {
        vstd::arithmetic::div_mod::lemma_mod_division_less_than_divisor(v as int, block as int);
        vstd::arithmetic::div_mod::lemma_fundamental_div_mod(v as int, block as int);
        vstd::arithmetic::div_mod::lemma_div_pos_is_pos(v as int, block as int);
        assert(v as int % (block as int) <= v as int) by (nonlinear_arith)
            requires
                v as int == (block as int) * (v as int / block as int) + v as int % (
                block as int),
                v as int / block as int >= 0,
                block as int >= 1,
                0 <= v as int % (block as int) < block as int;
    }
    let base = v - v % block;
    proof {
        let b = block as int;
        let q = v as int / b;
        assert(base as int == b * q);
        // The base is a multiple of the block size.
        vstd::arithmetic::div_mod::lemma_mod_multiples_basic(q, b);
        assert(b * q == q * b) by (nonlinear_arith);
        // The whole block fits below the address space's end, because
        // the address space is a multiple of the block size.
        lemma_pow2_adds((32 - prefix) as nat, prefix as nat);
        lemma_pow2_32();
        let m = pow2(prefix as nat);
        assert(q < m) by (nonlinear_arith)
            requires
                b * q <= v as int,
                (v as int) < b * m,
                b >= 1;
        assert(b * q + b <= b * m) by (nonlinear_arith)
            requires
                q < m,
                b >= 1;
    }
    base as u32
}

/// The `idx`-th address of the subnet, while any remain.
pub fn nth_address(base: u32, prefix: u8, idx: u64) -> (r: Option<Ipv4Address>)
    requires
        prefix <= 32,
        base as int + subnet_size(prefix as nat) <= 0x1_0000_0000,
    ensures
        idx < subnet_size(prefix as nat) ==> (r matches Some(a) && a.spec_value() == base as int
            + idx),
        idx >= subnet_size(prefix as nat) ==> r is None,
{
    let block = pow2_u64(32 - (prefix as u32));
    if idx >= block {
        return None;
    }
    Some(crate::ip::ipv4_from_value(base + (idx as u32)))
}

/// A host discovered by the scan.
#[derive(Clone, Debug)]
pub struct Device {
    /// Dotted-decimal IPv4, the device's identity.
    pub ip: String,
    /// Colon-hex lowercase MAC.
    pub mac: String,
    /// Vendor name from the OUI registry, `Unknown` if no match.
    pub manufacturer: String,
    /// Reverse-DNS name, `Unknown` if the lookup failed.
    pub hostname: String,
}

/// Why a scan failed as a whole.
#[derive(Clone, Debug)]
pub enum ScanError {
    NoActiveInterface,
    ChannelCreationFailure,
    IoError(String),
    DefaultInterfaceNotFound,
}

/// The user-visible message of each scan error.
pub open spec fn spec_scan_message(e: ScanError) -> Seq<char> {
    match e {
        ScanError::NoActiveInterface => "No active network interface was found."@,
        ScanError::ChannelCreationFailure => "Failed to create the datalink channel."@,
        ScanError::IoError(d) => "I/O error: "@ + d@,
        ScanError::DefaultInterfaceNotFound => "Default network interface not found."@,
    }
}

impl ScanError {
    /// Renders the user-visible message of this error.
    pub fn message(&self) -> (r: String)
        ensures
            r@ == spec_scan_message(*self),
    {
        match self {
            ScanError::NoActiveInterface => "No active network interface was found.".to_owned(),
            ScanError::ChannelCreationFailure => "Failed to create the datalink channel."
                .to_owned(),
            ScanError::IoError(d) => {
                let mut m = "I/O error: ".to_owned();
                m.append(d.as_str());
                m
            },
            ScanError::DefaultInterfaceNotFound => "Default network interface not found."
                .to_owned(),
        }
    }
}

/// The vendor name for a MAC address: the registry's entry for its
/// 24-bit prefix, or `Unknown`.
pub fn get_manufacturer(oui: &OuiDb, mac: &MacAddress) -> (r: String)
    ensures
        r@ == (match table_lookup(pairs_view(oui.entries@), lower_prefix8(mac_chars(*mac))) {
            Some(org) => org,
            None => "Unknown"@,
        }),
{
    let rendered = format_mac(mac);
    match oui.lookup(rendered.as_str()) {
        Some(org) => org,
        None => "Unknown".to_owned(),
    }
}

/// Builds the device record for one discovered host, enriched with
/// its vendor and the hostname a reverse lookup produced, if any.
pub fn make_device(ip: &Ipv4Address, mac: &MacAddress, oui: &OuiDb, hostname: Option<String>)
    -> (r: Device)
    ensures
        r.ip@ == ipv4_chars(*ip),
        r.mac@ == mac_chars(*mac),
        r.manufacturer@ == (match table_lookup(pairs_view(oui.entries@), lower_prefix8(mac_chars(
            *mac,
        ))) {
            Some(org) => org,
            None => "Unknown"@,
        }),
        r.hostname@ == (match hostname {
            Some(h) => h@,
            None => "Unknown"@,
        }),
{
    Device {
        ip: format_ipv4(ip),
        mac: format_mac(mac),
        manufacturer: get_manufacturer(oui, mac),
        hostname: match hostname {
            Some(h) => h,
            None => "Unknown".to_owned(),
        },
    }
}

/// The numeric IPv4 a device's identity string parses to, or -1 when
/// it is no dotted-decimal literal.
pub open spec fn device_key(d: Device) -> int {
    match spec_parse_ipv4(d.ip@) {
        Some(a) => a.spec_value(),
        None => -1,
    }
}

/// The scan's aggregation table: devices keyed by their numeric IPv4,
/// kept strictly sorted, so keys are unique and the snapshot is
/// already in scan order.
pub struct DeviceTable {
    pub entries: Vec<(u32, Device)>,
}

/// Strictly ascending keys, each device's identity string rendering
/// its key.
pub open spec fn table_wf(t: DeviceTable) -> bool {
    &&& forall|i: int, j: int| 0 <= i < j < t.entries@.len() ==> (#[trigger] t.entries@[i]).0
        < (#[trigger] t.entries@[j]).0
    &&& forall|i: int| 0 <= i < t.entries@.len() ==> (#[trigger] t.entries@[i]).1.ip@
        == ipv4_chars(crate::ip::ipv4_of_value(t.entries@[i].0 as int))
}

/// Whether the table already holds a device for this key.
pub open spec fn spec_contains(t: DeviceTable, key: u32) -> bool {
    exists|i: int| 0 <= i < t.entries@.len() && (#[trigger] t.entries@[i]).0 == key
}

/// Rebuilding an address from a 32-bit value and reading its value
/// back is the identity.
pub proof fn lemma_ipv4_value_roundtrip(x: u32)
    ensures
        crate::ip::ipv4_of_value(x as int).spec_value() == x as int,
{
    assert(x / 0x1000000 < 0x100 && (x / 0x10000) % 0x100 < 0x100 && (x / 0x100) % 0x100 < 0x100
        && x % 0x100 < 0x100) by (bit_vector);
    assert(x == (x / 0x1000000) * 0x1000000 + ((x / 0x10000) % 0x100) * 0x10000 + ((x / 0x100)
        % 0x100) * 0x100 + (x % 0x100)) by (bit_vector);
}

impl DeviceTable {
    /// An empty table.
    pub fn new() -> (r: DeviceTable)
        ensures
            r.entries@ =~= Seq::<(u32, Device)>::empty(),
            table_wf(r),
    {
        DeviceTable { entries: Vec::new() }
    }

    /// How many devices the table holds.
    pub fn len(&self) -> (r: usize)
        ensures
            r == self.entries@.len(),
    {
        self.entries.len()
    }

    /// Whether the table already holds a device for this key.
    pub fn contains(&self, key: u32) -> (r: bool)
        requires
            table_wf(*self),
        ensures
            r == spec_contains(*self, key),
    {
        let n = self.entries.len();
        let mut i: usize = 0;
        while i < n
            invariant
                0 <= i <= n,
                n == self.entries@.len(),
                forall|t: int| 0 <= t < i ==> (#[trigger] self.entries@[t]).0 != key,
            decreases n - i,
        {
            if self.entries[i].0 == key {
                return true;
            }
            i = i + 1;
        }
        false
    }

    /// Inserts a device under its numeric address unless one is
    /// already recorded there; the table stays sorted, so at most one
    /// device ever exists per address.
    pub fn insert_if_absent(&mut self, key: u32, device: Device)
        requires
            table_wf(*old(self)),
            device.ip@ == ipv4_chars(crate::ip::ipv4_of_value(key as int)),
        ensures
            table_wf(*final(self)),
            spec_contains(*old(self), key) ==> final(self).entries@ == old(self).entries@,
            !spec_contains(*old(self), key) ==> {
                &&& exists|p: int| 0 <= p <= old(self).entries@.len()
                    && final(self).entries@ == old(self).entries@.insert(p, (key, device))
                &&& spec_contains(*final(self), key)
            },
    {
        let n = self.entries.len();
        let mut i: usize = 0;
        while i < n
            invariant
                0 <= i <= n,
                n == self.entries@.len(),
                self.entries@ == old(self).entries@,
                table_wf(*self),
                forall|t: int| 0 <= t < i ==> (#[trigger] self.entries@[t]).0 < key,
            ensures
                0 <= i <= n,
                self.entries@ == old(self).entries@,
                forall|t: int| 0 <= t < i ==> (#[trigger] self.entries@[t]).0 < key,
                (i as int) < n ==> self.entries@[i as int].0 > key,
            decreases n - i,
        {
            if self.entries[i].0 == key {
                proof {
                    assert(spec_contains(*old(self), key));
                }
                return;
            }
            if self.entries[i].0 > key {
                break;
            }
            i = i + 1;
        }
        // No entry holds this key: those before position `i` are
        // smaller, and by sortedness those from `i` on are larger.
        proof {
            assert(forall|t: int| i <= t < n ==> (#[trigger] self.entries@[t]).0 > key) by {
                if i < n {
                    assert(self.entries@[i as int].0 > key);
                    assert(forall|t: int| i < t < n ==> self.entries@[i as int].0 < (
                    #[trigger] self.entries@[t]).0);
                }
            }
            assert(!spec_contains(*self, key));
        }
        let ghost before = self.entries@;
        self.entries.insert(i, (key, device));
        proof {
            let now = self.entries@;
            assert forall|a: int, b: int| 0 <= a < b < now.len() implies (#[trigger] now[a]).0
                < (#[trigger] now[b]).0 by {
                if b < i {
                    assert(now[a] == before[a] && now[b] == before[b]);
                } else if a > i {
                    assert(now[a] == before[a - 1] && now[b] == before[b - 1]);
                } else if a < i && b == i {
                    assert(now[a] == before[a]);
                } else if a == i && b > i {
                    assert(now[b] == before[b - 1]);
                } else if a < i && b > i {
                    assert(now[a] == before[a] && now[b] == before[b - 1]);
                }
            }
            assert(table_wf(*self)) by {
                assert(forall|t: int| 0 <= t < now.len() ==> (#[trigger] now[t]).1.ip@
                    == ipv4_chars(crate::ip::ipv4_of_value(now[t].0 as int))) by {
                    assert(forall|t: int| 0 <= t < i ==> now[t] == before[t]);
                    assert(forall|t: int| i < t < now.len() ==> now[t] == before[t - 1]);
                }
            }
            assert(now[i as int].0 == key);
        }
    }

    /// The scan's result: the devices in ascending numeric IPv4 order,
    /// every identity a dotted-decimal literal, no two alike.
    pub fn sorted_devices(&self) -> (r: Vec<Device>)
        requires
            table_wf(*self),
        ensures
            r@.len() == self.entries@.len(),
            forall|i: int| 0 <= i < r@.len() ==> r@[i] == (#[trigger] self.entries@[i]).1,
            forall|i: int| 0 <= i < r@.len() ==> spec_parse_ipv4((#[trigger] r@[i]).ip@)
                is Some,
            forall|i: int, j: int| 0 <= i < j < r@.len() ==> device_key(#[trigger] r@[i])
                < device_key(#[trigger] r@[j]),
    {
        let n = self.entries.len();
        let mut out: Vec<Device> = Vec::new();
        let mut i: usize = 0;
        while i < n
            invariant
                0 <= i <= n,
                n == self.entries@.len(),
                table_wf(*self),
                out@.len() == i,
                forall|t: int| 0 <= t < i ==> out@[t] == (#[trigger] self.entries@[t]).1,
            decreases n - i,
        {
            let e = &self.entries[i];
            out.push(clone_device(&e.1));
            i = i + 1;
        }
        proof {
            assert forall|t: int| 0 <= t < out@.len() implies spec_parse_ipv4(
                (#[trigger] out@[t]).ip@) is Some && device_key(out@[t])
                == self.entries@[t].0 as int by {
                lemma_parse_of_format(crate::ip::ipv4_of_value(self.entries@[t].0 as int));
                lemma_ipv4_value_roundtrip(self.entries@[t].0);
            }
        }
        out
    }
}

/// An exact copy of a device record.
pub fn clone_device(d: &Device) -> (r: Device)
    ensures
        r == *d,
{
    Device {
        ip: d.ip.clone(),
        mac: d.mac.clone(),
        manufacturer: d.manufacturer.clone(),
        hostname: d.hostname.clone(),
    }
}

/// Law: in any device list the scan returns, the identity strings are
/// pairwise distinct — the keys are strictly ordered, and the key is a
/// function of the identity string.
pub proof fn lemma_device_list_ips_unique(r: Seq<Device>)
    requires
        forall|i: int, j: int| 0 <= i < j < r.len() ==> device_key(#[trigger] r[i]) < device_key(
            #[trigger] r[j]),
    ensures
        forall|i: int, j: int| 0 <= i < j < r.len() ==> (#[trigger] r[i]).ip@ != (
        #[trigger] r[j]).ip@,
{
    assert forall|i: int, j: int| 0 <= i < j < r.len() implies (#[trigger] r[i]).ip@ != (
    #[trigger] r[j]).ip@ by {
        if r[i].ip@ == r[j].ip@ {
            assert(device_key(r[i]) == device_key(r[j]));
        }
    }
}

} // verus!
