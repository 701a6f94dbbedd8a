//! `[packet_data]` configuration section.

use crate::ipv4::{dotted_value, Ipv4Addr};
use crate::sec_llc::{fault, range_error, ConfigError, Fault};
use crate::sndcp::pool::{size_of_subnet, subnet_size};
use crate::text::{append_decimal, append_dotted, decimal, dotted};
use vstd::arithmetic::power2::pow2;
use vstd::prelude::*;
use vstd::string::StringExecFns;

verus! {

/// Packet-data settings of a cell.
#[derive(Debug)]
pub struct CfgPacketData {
    /// Serve packet data in the cell.
    pub enabled: bool,
    /// Network address of the IPv4 pool, aligned to its prefix.
    pub ipv4_pool_base: Ipv4Addr,
    /// Prefix length of the IPv4 pool, 24 to 30.
    pub ipv4_pool_prefix: u8,
    /// Name of the TUN interface.
    pub tun_name: String,
    /// Address of the TUN interface, inside the pool and never handed out.
    pub tun_addr: Ipv4Addr,
    /// IPv4 MTU in octets, one of [`VALID_MTU_VALUES`].
    pub mtu: u16,
    /// Addresses that are reserved for single subscribers and never handed out by the
    /// pool.
    pub static_lease: Vec<CfgStaticLease>,
    pub timers: CfgPacketDataTimers,
    pub pdch: CfgPacketDataPdch,
}

/// An address reserved for one subscriber.
#[derive(Debug, Clone, Copy, PartialEq, Eq, Structural)]
pub struct CfgStaticLease {
    pub issi: u32,
    pub ipv4: Ipv4Addr,
}

/// Encoded SNDCP timer values, as they go into the activation accept.
#[derive(Debug, Clone, Copy, PartialEq, Eq, Structural)]
pub struct CfgPacketDataTimers {
    /// Four bits.
    pub ready_timer: u8,
    /// Four bits.
    pub standby_timer: u8,
    /// Four bits.
    pub resp_wait_timer: u8,
    /// Three bits.
    pub pdu_priority_max: u8,
}

/// Settings of the packet-data channel allocator.
#[derive(Debug, Clone, Copy, PartialEq, Eq, Structural)]
pub struct CfgPacketDataPdch {
    /// Idle frames before an assignment is released, 1 to 1024.
    pub idle_release_frames: u32,
    /// Permit more than one slot.
    pub multi_slot: bool,
    /// Channel width code, 0 to 3.
    pub channel_width: u8,
    /// Downlink slots in a frame, 1 to 3.
    pub dl_max_slots_per_frame: u8,
    /// Give more than one slot only to a terminal that is known to support it.
    pub require_ms_capability: bool,
}

/// MTU values that have a code.
pub const VALID_MTU_VALUES: [u16; 7] = [256, 512, 1024, 1280, 1500, 2048, 4096];

/// The code of an MTU value, if it has one.
pub open spec fn mtu_code(mtu: u16) -> Option<u8> {
    if mtu == 256 {
        Some(0u8)
    } else if mtu == 512 {
        Some(1u8)
    } else if mtu == 1024 {
        Some(2u8)
    } else if mtu == 1280 {
        Some(3u8)
    } else if mtu == 1500 {
        Some(4u8)
    } else if mtu == 2048 {
        Some(5u8)
    } else if mtu == 4096 {
        Some(6u8)
    } else {
        None
    }
}

/// See [`mtu_code`].
pub fn mtu_to_code(mtu: u16) -> (r: Option<u8>)
    ensures
        r == mtu_code(mtu),
        r matches Some(c) ==> c < 7 && VALID_MTU_VALUES@[c as int] == mtu,
        r is None ==> !VALID_MTU_VALUES@.contains(mtu),
{
    let mut i: usize = 0;
    while i < 7
        invariant
            i <= 7,
            forall|j: int| 0 <= j < i ==> VALID_MTU_VALUES@[j] != mtu,
        decreases 7 - i,
    {
        if VALID_MTU_VALUES[i] == mtu {
            return Some(i as u8);
        }
        i = i + 1;
    }
    assert(VALID_MTU_VALUES@[0] != mtu && VALID_MTU_VALUES@[1] != mtu && VALID_MTU_VALUES@[2]
        != mtu && VALID_MTU_VALUES@[3] != mtu && VALID_MTU_VALUES@[4] != mtu && VALID_MTU_VALUES@[5]
        != mtu && VALID_MTU_VALUES@[6] != mtu);
    None
}

/// The timers that apply when nothing is configured.
pub open spec fn default_timers() -> CfgPacketDataTimers {
    CfgPacketDataTimers {
        ready_timer: 8,
        standby_timer: 5,
        resp_wait_timer: 8,
        pdu_priority_max: 4,
    }
}

/// The channel settings that apply when nothing is configured.
pub open spec fn default_pdch() -> CfgPacketDataPdch {
    CfgPacketDataPdch {
        idle_release_frames: 300,
        multi_slot: false,
        channel_width: 0,
        dl_max_slots_per_frame: 1,
        require_ms_capability: true,
    }
}

impl Default for CfgPacketDataTimers {
    fn default() -> (r: CfgPacketDataTimers)
        ensures
            r == default_timers(),
    {
        CfgPacketDataTimers {
            ready_timer: default_ready_timer(),
            standby_timer: default_standby_timer(),
            resp_wait_timer: default_resp_wait_timer(),
            pdu_priority_max: default_pdu_priority_max(),
        }
    }
}

impl Default for CfgPacketDataPdch {
    fn default() -> (r: CfgPacketDataPdch)
        ensures
            r == default_pdch(),
    {
        CfgPacketDataPdch {
            idle_release_frames: default_idle_release_frames(),
            multi_slot: false,
            channel_width: 0,
            dl_max_slots_per_frame: default_dl_max_slots_per_frame(),
            require_ms_capability: default_require_ms_capability(),
        }
    }
}

/// The settings are those that apply when nothing is configured: packet data off, the pool
/// 192.168.100.0/24 with the interface on its first address.
pub open spec fn is_default(cfg: CfgPacketData) -> bool {
    &&& !cfg.enabled
    &&& cfg.ipv4_pool_base.bits == dotted_value(192, 168, 100, 0)
    &&& cfg.ipv4_pool_prefix == 24
    &&& cfg.tun_name@ == "flowstation-pd0"@
    &&& cfg.tun_addr.bits == dotted_value(192, 168, 100, 1)
    &&& cfg.mtu == 1500
    &&& cfg.static_lease@.len() == 0
    &&& cfg.timers == default_timers()
    &&& cfg.pdch == default_pdch()
}

impl Default for CfgPacketData {
    fn default() -> (r: CfgPacketData)
        ensures
            is_default(r),
    {
        CfgPacketData {
            enabled: false,
            ipv4_pool_base: Ipv4Addr::new(192, 168, 100, 0),
            ipv4_pool_prefix: 24,
            tun_name: default_tun_name(),
            tun_addr: Ipv4Addr::new(192, 168, 100, 1),
            mtu: 1500,
            static_lease: Vec::new(),
            timers: CfgPacketDataTimers::default(),
            pdch: CfgPacketDataPdch::default(),
        }
    }
}

/// The `[packet_data]` section as written. A setting that is absent has its default.
#[derive(Debug, Clone)]
pub struct PacketDataDto {
    pub enabled: bool,
    pub ipv4_pool_base: Ipv4Addr,
    pub ipv4_pool_prefix: u8,
    pub tun_name: String,
    pub tun_addr: Ipv4Addr,
    pub mtu: u16,
    pub static_lease: Vec<StaticLeaseDto>,
    pub timers: PacketDataTimersDto,
    pub pdch: PacketDataPdchDto,
}

/// A `[[packet_data.static_lease]]` entry as written.
#[derive(Debug, Clone, Copy, PartialEq, Eq, Structural)]
pub struct StaticLeaseDto {
    pub issi: u32,
    pub ipv4: Ipv4Addr,
}

/// The `[packet_data.timers]` section as written.
#[derive(Debug, Clone, Copy, PartialEq, Eq, Structural)]
pub struct PacketDataTimersDto {
    pub ready_timer: u8,
    pub standby_timer: u8,
    pub resp_wait_timer: u8,
    pub pdu_priority_max: u8,
}

/// The `[packet_data.pdch]` section as written.
#[derive(Debug, Clone, Copy, PartialEq, Eq, Structural)]
pub struct PacketDataPdchDto {
    pub idle_release_frames: u32,
    pub multi_slot: bool,
    pub channel_width: u8,
    pub dl_max_slots_per_frame: u8,
    pub require_ms_capability: bool,
}

pub fn default_enabled() -> (r: bool)
    ensures
        !r,
{
    false
}

pub fn default_pool_prefix() -> (r: u8)
    ensures
        r == 24,
{
    24
}

pub fn default_mtu() -> (r: u16)
    ensures
        r == 1500,
{
    1500
}

pub fn default_ready_timer() -> (r: u8)
    ensures
        r == default_timers().ready_timer,
{
    8
}

pub fn default_standby_timer() -> (r: u8)
    ensures
        r == default_timers().standby_timer,
{
    5
}

pub fn default_resp_wait_timer() -> (r: u8)
    ensures
        r == default_timers().resp_wait_timer,
{
    8
}

pub fn default_pdu_priority_max() -> (r: u8)
    ensures
        r == default_timers().pdu_priority_max,
{
    4
}

pub fn default_idle_release_frames() -> (r: u32)
    ensures
        r == default_pdch().idle_release_frames,
{
    300
}

pub fn default_channel_width() -> (r: u8)
    ensures
        r == default_pdch().channel_width,
{
    0
}

pub fn default_dl_max_slots_per_frame() -> (r: u8)
    ensures
        r == default_pdch().dl_max_slots_per_frame,
{
    1
}

pub fn default_require_ms_capability() -> (r: bool)
    ensures
        r == default_pdch().require_ms_capability,
{
    true
}

pub fn default_pool_base() -> (r: Ipv4Addr)
    ensures
        r.bits == dotted_value(192, 168, 100, 0),
{
    Ipv4Addr::new(192, 168, 100, 0)
}

pub fn default_tun_name() -> (r: String)
    ensures
        r@ == "flowstation-pd0"@,
{
    "flowstation-pd0".to_owned()
}

pub fn default_tun_addr() -> (r: Ipv4Addr)
    ensures
        r.bits == dotted_value(192, 168, 100, 1),
{
    Ipv4Addr::new(192, 168, 100, 1)
}

impl Default for PacketDataTimersDto {
    fn default() -> (r: PacketDataTimersDto)
        ensures
            compiled_timers(r) == default_timers(),
    {
        PacketDataTimersDto {
            ready_timer: default_ready_timer(),
            standby_timer: default_standby_timer(),
            resp_wait_timer: default_resp_wait_timer(),
            pdu_priority_max: default_pdu_priority_max(),
        }
    }
}

impl Default for PacketDataPdchDto {
    fn default() -> (r: PacketDataPdchDto)
        ensures
            compiled_pdch(r) == default_pdch(),
    {
        PacketDataPdchDto {
            idle_release_frames: default_idle_release_frames(),
            multi_slot: false,
            channel_width: default_channel_width(),
            dl_max_slots_per_frame: default_dl_max_slots_per_frame(),
            require_ms_capability: default_require_ms_capability(),
        }
    }
}

/// The section is the one that stands for the defaults.
pub open spec fn is_default_dto(dto: PacketDataDto) -> bool {
    &&& !dto.enabled
    &&& dto.ipv4_pool_base.bits == dotted_value(192, 168, 100, 0)
    &&& dto.ipv4_pool_prefix == 24
    &&& dto.tun_name@ == "flowstation-pd0"@
    &&& dto.tun_addr.bits == dotted_value(192, 168, 100, 1)
    &&& dto.mtu == 1500
    &&& dto.static_lease@.len() == 0
    &&& compiled_timers(dto.timers) == default_timers()
    &&& compiled_pdch(dto.pdch) == default_pdch()
}

impl Default for PacketDataDto {
    fn default() -> (r: PacketDataDto)
        ensures
            is_default_dto(r),
    {
        PacketDataDto {
            enabled: default_enabled(),
            ipv4_pool_base: default_pool_base(),
            ipv4_pool_prefix: default_pool_prefix(),
            tun_name: default_tun_name(),
            tun_addr: default_tun_addr(),
            mtu: default_mtu(),
            static_lease: Vec::new(),
            timers: PacketDataTimersDto::default(),
            pdch: PacketDataPdchDto::default(),
        }
    }
}

/// The timers that a section stands for.
pub open spec fn compiled_timers(t: PacketDataTimersDto) -> CfgPacketDataTimers {
    CfgPacketDataTimers {
        ready_timer: t.ready_timer,
        standby_timer: t.standby_timer,
        resp_wait_timer: t.resp_wait_timer,
        pdu_priority_max: t.pdu_priority_max,
    }
}

/// The channel settings that a section stands for.
pub open spec fn compiled_pdch(p: PacketDataPdchDto) -> CfgPacketDataPdch {
    CfgPacketDataPdch {
        idle_release_frames: p.idle_release_frames,
        multi_slot: p.multi_slot,
        channel_width: p.channel_width,
        dl_max_slots_per_frame: p.dl_max_slots_per_frame,
        require_ms_capability: p.require_ms_capability,
    }
}

/// The leases that the entries stand for.
pub open spec fn compiled_leases(s: Seq<StaticLeaseDto>) -> Seq<CfgStaticLease> {
    Seq::new(s.len(), |i: int| CfgStaticLease { issi: s[i].issi, ipv4: s[i].ipv4 })
}

/// The settings are those that the section stands for.
pub open spec fn compiles_to(dto: PacketDataDto, cfg: CfgPacketData) -> bool {
    &&& cfg.enabled == dto.enabled
    &&& cfg.ipv4_pool_base == dto.ipv4_pool_base
    &&& cfg.ipv4_pool_prefix == dto.ipv4_pool_prefix
    &&& cfg.tun_name == dto.tun_name
    &&& cfg.tun_addr == dto.tun_addr
    &&& cfg.mtu == dto.mtu
    &&& cfg.static_lease@ == compiled_leases(dto.static_lease@)
    &&& cfg.timers == compiled_timers(dto.timers)
    &&& cfg.pdch == compiled_pdch(dto.pdch)
}

/// The network address of the subnet that an address lies in.
pub open spec fn network(a: u32, prefix: u8) -> int {
    a - a as int % subnet_size(prefix)
}

/// The subnet of the pool, written as address and prefix.
pub open spec fn subnet_text(dto: PacketDataDto) -> Seq<char> {
    dotted(dto.ipv4_pool_base) + "/"@ + decimal(dto.ipv4_pool_prefix as nat)
}

/// The address lies inside the pool.
pub open spec fn in_pool(dto: PacketDataDto, a: Ipv4Addr) -> bool {
    network(a.bits, dto.ipv4_pool_prefix) == dto.ipv4_pool_base.bits
}

/// The first fault of the pool, the interface address and the MTU.
pub open spec fn pool_fault(dto: PacketDataDto) -> Option<Fault> {
    let base = dto.ipv4_pool_base.bits;
    let prefix = dto.ipv4_pool_prefix;
    if !(24 <= prefix <= 30) {
        fault(
            "packet_data.ipv4_pool_prefix",
            "must be 24..=30 (pool of 2..=254 addresses), got ",
            prefix as int,
        )
    } else if network(base, prefix) != base {
        Some(
            Fault {
                field: "packet_data.ipv4_pool_base"@,
                message: "must be network-aligned for prefix /"@ + decimal(prefix as nat)
                    + " (base & mask == base); got "@ + dotted(dto.ipv4_pool_base)
                    + ", nearest aligned address is "@ + dotted(
                    Ipv4Addr { bits: network(base, prefix) as u32 },
                ),
            },
        )
    } else if !in_pool(dto, dto.tun_addr) {
        Some(
            Fault {
                field: "packet_data.tun_addr"@,
                message: "must lie inside pool subnet "@ + subnet_text(dto) + ", got "@ + dotted(
                    dto.tun_addr,
                ),
            },
        )
    } else if dto.tun_addr.bits == base + subnet_size(prefix) - 1 {
        Some(
            Fault {
                field: "packet_data.tun_addr"@,
                message: "must not be the broadcast address "@ + dotted(dto.tun_addr)
                    + " of the pool subnet"@,
            },
        )
    } else if mtu_code(dto.mtu) is None {
        fault(
            "packet_data.mtu",
            "must be one of [256, 512, 1024, 1280, 1500, 2048, 4096] (ETSI TS 100 392-2 table 28.79), got ",
            dto.mtu as int,
        )
    } else {
        None
    }
}

/// The entry's address is that of the interface or of an earlier entry.
pub open spec fn lease_collides(dto: PacketDataDto, i: int) -> bool {
    ||| dto.static_lease@[i].ipv4.bits == dto.tun_addr.bits
    ||| exists|j: int|
        0 <= j < i && (#[trigger] dto.static_lease@[j]).ipv4.bits == dto.static_lease@[i].ipv4.bits
}

/// The entry's subscriber has an earlier entry.
pub open spec fn lease_repeats(dto: PacketDataDto, i: int) -> bool {
    exists|j: int|
        0 <= j < i && (#[trigger] dto.static_lease@[j]).issi == dto.static_lease@[i].issi
}

/// The fault of entry `i` of the leases.
pub open spec fn lease_fault(dto: PacketDataDto, i: int) -> Option<Fault> {
    let lease = dto.static_lease@[i];
    let place = "static_lease["@ + decimal(i as nat);
    if !in_pool(dto, lease.ipv4) {
        Some(
            Fault {
                field: "packet_data.static_lease[].ipv4"@,
                message: place + "]: IP "@ + dotted(lease.ipv4) + " is outside pool subnet "@
                    + subnet_text(dto),
            },
        )
    } else if lease_collides(dto, i) {
        Some(
            Fault {
                field: "packet_data.static_lease[].ipv4"@,
                message: place + "]: IP "@ + dotted(lease.ipv4)
                    + " collides with tun_addr or another static lease"@,
            },
        )
    } else if lease_repeats(dto, i) {
        Some(
            Fault {
                field: "packet_data.static_lease[].issi"@,
                message: place + "]: ISSI "@ + decimal(lease.issi as nat)
                    + " appears more than once in static_lease"@,
            },
        )
    } else {
        None
    }
}

/// The first fault of the first `n` leases.
pub open spec fn leases_fault(dto: PacketDataDto, n: nat) -> Option<Fault>
    decreases n,
{
    if n == 0 {
        None
    } else {
        match leases_fault(dto, (n - 1) as nat) {
            Some(f) => Some(f),
            None => lease_fault(dto, n - 1),
        }
    }
}

/// The first fault of the timers and the channel.
pub open spec fn knobs_fault(dto: PacketDataDto) -> Option<Fault> {
    if dto.timers.ready_timer > 15 {
        fault(
            "packet_data.timers.ready_timer",
            "must be 0..=15 (4-bit table 28.112 field), got ",
            dto.timers.ready_timer as int,
        )
    } else if dto.timers.standby_timer > 15 {
        fault(
            "packet_data.timers.standby_timer",
            "must be 0..=15 (4-bit table 28.122 field), got ",
            dto.timers.standby_timer as int,
        )
    } else if dto.timers.resp_wait_timer > 15 {
        fault(
            "packet_data.timers.resp_wait_timer",
            "must be 0..=15 (4-bit table 28.116 field), got ",
            dto.timers.resp_wait_timer as int,
        )
    } else if dto.timers.pdu_priority_max > 7 {
        fault(
            "packet_data.timers.pdu_priority_max",
            "must be 0..=7 (3-bit table 28.103 field), got ",
            dto.timers.pdu_priority_max as int,
        )
    } else if dto.pdch.idle_release_frames == 0 || dto.pdch.idle_release_frames > 1024 {
        fault(
            "packet_data.pdch.idle_release_frames",
            "must be 1..=1024, got ",
            dto.pdch.idle_release_frames as int,
        )
    } else if dto.pdch.channel_width > 3 {
        fault(
            "packet_data.pdch.channel_width",
            "must be 0..=3 (0=25 kHz, 1=50 kHz TEDS, 2=100 kHz, 3=150 kHz), got ",
            dto.pdch.channel_width as int,
        )
    } else if dto.pdch.dl_max_slots_per_frame < 1 || dto.pdch.dl_max_slots_per_frame > 3 {
        fault(
            "packet_data.pdch.dl_max_slots_per_frame",
            "must be 1..=3 (eligible DL timeslots TS2/TS3/TS4), got ",
            dto.pdch.dl_max_slots_per_frame as int,
        )
    } else {
        None
    }
}

/// The first fault of a section, in the order in which the settings are looked at.
pub open spec fn packet_data_fault(dto: PacketDataDto) -> Option<Fault> {
    if pool_fault(dto) is Some {
        pool_fault(dto)
    } else if leases_fault(dto, dto.static_lease@.len()) is Some {
        leases_fault(dto, dto.static_lease@.len())
    } else {
        knobs_fault(dto)
    }
}

/// Every setting is one that a cell can run with.
pub open spec fn acceptable(dto: PacketDataDto) -> bool {
    &&& 24 <= dto.ipv4_pool_prefix <= 30
    &&& network(dto.ipv4_pool_base.bits, dto.ipv4_pool_prefix) == dto.ipv4_pool_base.bits
    &&& in_pool(dto, dto.tun_addr)
    &&& dto.tun_addr.bits != dto.ipv4_pool_base.bits + subnet_size(dto.ipv4_pool_prefix) - 1
    &&& mtu_code(dto.mtu) is Some
    &&& forall|i: int|
        0 <= i < dto.static_lease@.len() ==> in_pool(dto, (#[trigger] dto.static_lease@[i]).ipv4)
            && dto.static_lease@[i].ipv4.bits != dto.tun_addr.bits
    &&& forall|i: int, j: int|
        0 <= i < j < dto.static_lease@.len() ==> (#[trigger] dto.static_lease@[i]).ipv4.bits != (
        #[trigger] dto.static_lease@[j]).ipv4.bits && dto.static_lease@[i].issi
            != dto.static_lease@[j].issi
    &&& dto.timers.ready_timer <= 15
    &&& dto.timers.standby_timer <= 15
    &&& dto.timers.resp_wait_timer <= 15
    &&& dto.timers.pdu_priority_max <= 7
    &&& 1 <= dto.pdch.idle_release_frames <= 1024
    &&& dto.pdch.channel_width <= 3
    &&& 1 <= dto.pdch.dl_max_slots_per_frame <= 3
}

/// The first `n` leases are without fault exactly if none of them has one.
proof fn lemma_leases_fault(dto: PacketDataDto, n: nat)
    requires
        n <= dto.static_lease@.len(),
    ensures
        leases_fault(dto, n) is None <==> forall|i: int|
            0 <= i < n ==> #[trigger] lease_fault(dto, i) is None,
    decreases n,
{
    if n > 0 {
        lemma_leases_fault(dto, (n - 1) as nat);
        if leases_fault(dto, n) is None {
            assert forall|i: int| 0 <= i < n implies #[trigger] lease_fault(dto, i) is None by {
                if i == n - 1 {
                    assert(lease_fault(dto, n - 1) is None);
                }
            }
        } else {
            if leases_fault(dto, (n - 1) as nat) is None {
                assert(lease_fault(dto, n - 1) is Some);
            }
        }
    }
}

/// A section is accepted exactly if every setting is one that a cell can run with.
pub proof fn law_accepted_iff_acceptable(dto: PacketDataDto)
    ensures
        packet_data_fault(dto) is None <==> acceptable(dto),
{
    let n = dto.static_lease@.len();
    lemma_leases_fault(dto, n);
    if packet_data_fault(dto) is None {
        assert forall|i: int| 0 <= i < n implies in_pool(
            dto,
            (#[trigger] dto.static_lease@[i]).ipv4,
        ) && dto.static_lease@[i].ipv4.bits != dto.tun_addr.bits by {
            assert(lease_fault(dto, i) is None);
        }
        assert forall|i: int, j: int| 0 <= i < j < n implies (
        #[trigger] dto.static_lease@[i]).ipv4.bits != (#[trigger] dto.static_lease@[j]).ipv4.bits
            && dto.static_lease@[i].issi != dto.static_lease@[j].issi by {
            assert(lease_fault(dto, j) is None);
        }
    }
    if acceptable(dto) {
        assert forall|i: int| 0 <= i < n implies #[trigger] lease_fault(dto, i) is None by {
            assert(in_pool(dto, dto.static_lease@[i].ipv4));
        }
    }
}

/// The defaults are accepted.
pub proof fn law_defaults_acceptable(dto: PacketDataDto)
    requires
        is_default_dto(dto),
    ensures
        acceptable(dto),
        packet_data_fault(dto) is None,
{
    assert(subnet_size(24) == 256) by {
        vstd::arithmetic::power2::lemma2_to64();
    }
    law_accepted_iff_acceptable(dto);
}

/// Everything that the pool of an accepted section hands out fits into 32 bits.
pub proof fn law_pool_fits(dto: PacketDataDto)
    requires
        acceptable(dto),
    ensures
        4 <= subnet_size(dto.ipv4_pool_prefix) <= 256,
        dto.ipv4_pool_base.bits + subnet_size(dto.ipv4_pool_prefix) <= 0x1_0000_0000,
{
    lemma_subnet_size(dto.ipv4_pool_prefix);
    lemma_aligned_fits(dto.ipv4_pool_base.bits, dto.ipv4_pool_prefix);
}

proof fn lemma_subnet_size(prefix: u8)
    requires
        24 <= prefix <= 30,
    ensures
        4 <= subnet_size(prefix) <= 256,
        subnet_size(prefix) == 4 || subnet_size(prefix) == 8 || subnet_size(prefix) == 16
            || subnet_size(prefix) == 32 || subnet_size(prefix) == 64 || subnet_size(prefix) == 128
            || subnet_size(prefix) == 256,
{
    vstd::arithmetic::power2::lemma2_to64();
    assert(pow2(2) == 4 && pow2(3) == 8 && pow2(4) == 16 && pow2(5) == 32 && pow2(6) == 64 && pow2(
        7,
    ) == 128 && pow2(8) == 256);
}

proof fn lemma_aligned_fits(base: u32, prefix: u8)
    requires
        24 <= prefix <= 30,
        network(base, prefix) == base,
    ensures
        base + subnet_size(prefix) <= 0x1_0000_0000,
{
    lemma_subnet_size(prefix);
    let size = subnet_size(prefix);
    let b = base as int;
    assert(b % size == 0);
    if size == 4 {
        assert(b % 4 == 0);
    } else if size == 8 {
        assert(b % 8 == 0);
    } else if size == 16 {
        assert(b % 16 == 0);
    } else if size == 32 {
        assert(b % 32 == 0);
    } else if size == 64 {
        assert(b % 64 == 0);
    } else if size == 128 {
        assert(b % 128 == 0);
    } else {
        assert(b % 256 == 0);
    }
}

/// Appends the subnet of the pool.
fn append_subnet(s: &mut String, dto: &PacketDataDto)
    ensures
        final(s)@ == old(s)@ + subnet_text(*dto),
{
    let ghost before = s@;
    append_dotted(s, dto.ipv4_pool_base);
    s.append("/");
    append_decimal(s, dto.ipv4_pool_prefix as u64);
    assert(s@ =~= before + subnet_text(*dto));
}

/// See [`network`].
fn network_of(a: u32, prefix: u8) -> (r: u32)
    requires
        24 <= prefix <= 30,
    ensures
        r == network(a, prefix),
{
    proof {
        lemma_subnet_size(prefix);
    }
    let size: u32 = size_of_subnet(prefix) as u32;
    proof {
        vstd::arithmetic::div_mod::lemma_mod_decreases(a as nat, size as nat);
    }
    a - a % size
}

/// See [`pool_fault`].
fn check_pool(dto: &PacketDataDto) -> (r: Result<(), ConfigError>)
    ensures
        match r {
            Ok(_) => pool_fault(*dto) is None,
            Err(e) => pool_fault(*dto) == Some(e@),
        },
{
    let prefix: u8 = dto.ipv4_pool_prefix;
    if prefix < 24 || prefix > 30 {
        return Err(
            range_error(
                "packet_data.ipv4_pool_prefix",
                "must be 24..=30 (pool of 2..=254 addresses), got ",
                prefix as u64,
            ),
        );
    }
    let base: u32 = dto.ipv4_pool_base.bits;
    let aligned: u32 = network_of(base, prefix);
    if aligned != base {
        let mut message: String = "must be network-aligned for prefix /".to_owned();
        append_decimal(&mut message, prefix as u64);
        message.append(" (base & mask == base); got ");
        append_dotted(&mut message, dto.ipv4_pool_base);
        message.append(", nearest aligned address is ");
        append_dotted(&mut message, Ipv4Addr { bits: aligned });
        return Err(ConfigError { field: "packet_data.ipv4_pool_base", message });
    }
    proof {
        lemma_subnet_size(prefix);
        lemma_aligned_fits(base, prefix);
    }
    let last: u32 = (base as u64 + size_of_subnet(prefix) - 1) as u32;
    if network_of(dto.tun_addr.bits, prefix) != base {
        let mut message: String = "must lie inside pool subnet ".to_owned();
        append_subnet(&mut message, dto);
        message.append(", got ");
        append_dotted(&mut message, dto.tun_addr);
        return Err(ConfigError { field: "packet_data.tun_addr", message });
    }
    if dto.tun_addr.bits == last {
        let mut message: String = "must not be the broadcast address ".to_owned();
        append_dotted(&mut message, dto.tun_addr);
        message.append(" of the pool subnet");
        return Err(ConfigError { field: "packet_data.tun_addr", message });
    }
    if mtu_to_code(dto.mtu).is_none() {
        return Err(
            range_error(
                "packet_data.mtu",
                "must be one of [256, 512, 1024, 1280, 1500, 2048, 4096] (ETSI TS 100 392-2 table 28.79), got ",
                dto.mtu as u64,
            ),
        );
    }
    Ok(())
}

/// See [`lease_collides`].
fn collides(dto: &PacketDataDto, i: usize) -> (r: bool)
    requires
        i < dto.static_lease@.len(),
    ensures
        r == lease_collides(*dto, i as int),
{
    let a: u32 = dto.static_lease[i].ipv4.bits;
    if a == dto.tun_addr.bits {
        return true;
    }
    let mut j: usize = 0;
    while j < i
        invariant
            j <= i,
            i < dto.static_lease@.len(),
            a == dto.static_lease@[i as int].ipv4.bits,
            forall|k: int| 0 <= k < j ==> (#[trigger] dto.static_lease@[k]).ipv4.bits != a,
        decreases i - j,
    {
        if dto.static_lease[j].ipv4.bits == a {
            return true;
        }
        j = j + 1;
    }
    false
}

/// See [`lease_repeats`].
fn repeats(dto: &PacketDataDto, i: usize) -> (r: bool)
    requires
        i < dto.static_lease@.len(),
    ensures
        r == lease_repeats(*dto, i as int),
{
    let issi: u32 = dto.static_lease[i].issi;
    let mut j: usize = 0;
    while j < i
        invariant
            j <= i,
            i < dto.static_lease@.len(),
            issi == dto.static_lease@[i as int].issi,
            forall|k: int| 0 <= k < j ==> (#[trigger] dto.static_lease@[k]).issi != issi,
        decreases i - j,
    {
        if dto.static_lease[j].issi == issi {
            return true;
        }
        j = j + 1;
    }
    false
}

/// See [`lease_fault`].
fn check_lease(dto: &PacketDataDto, i: usize) -> (r: Result<(), ConfigError>)
    requires
        24 <= dto.ipv4_pool_prefix <= 30,
        i < dto.static_lease@.len(),
    ensures
        match r {
            Ok(_) => lease_fault(*dto, i as int) is None,
            Err(e) => lease_fault(*dto, i as int) == Some(e@),
        },
{
    let lease: StaticLeaseDto = dto.static_lease[i];
    let mut message: String = "static_lease[".to_owned();
    append_decimal(&mut message, i as u64);
    if network_of(lease.ipv4.bits, dto.ipv4_pool_prefix) != dto.ipv4_pool_base.bits {
        message.append("]: IP ");
        append_dotted(&mut message, lease.ipv4);
        message.append(" is outside pool subnet ");
        append_subnet(&mut message, dto);
        return Err(ConfigError { field: "packet_data.static_lease[].ipv4", message });
    }
    if collides(dto, i) {
        message.append("]: IP ");
        append_dotted(&mut message, lease.ipv4);
        message.append(" collides with tun_addr or another static lease");
        return Err(ConfigError { field: "packet_data.static_lease[].ipv4", message });
    }
    if repeats(dto, i) {
        message.append("]: ISSI ");
        append_decimal(&mut message, lease.issi as u64);
        message.append(" appears more than once in static_lease");
        return Err(ConfigError { field: "packet_data.static_lease[].issi", message });
    }
    Ok(())
}

/// See [`leases_fault`].
fn check_leases(dto: &PacketDataDto) -> (r: Result<(), ConfigError>)
    requires
        24 <= dto.ipv4_pool_prefix <= 30,
    ensures
        match r {
            Ok(_) => leases_fault(*dto, dto.static_lease@.len()) is None,
            Err(e) => leases_fault(*dto, dto.static_lease@.len()) == Some(e@),
        },
{
    let mut i: usize = 0;
    while i < dto.static_lease.len()
        invariant
            i <= dto.static_lease@.len(),
            24 <= dto.ipv4_pool_prefix <= 30,
            leases_fault(*dto, i as nat) is None,
        decreases dto.static_lease@.len() - i,
    {
        match check_lease(dto, i) {
            Ok(_) => {},
            Err(e) => {
                proof {
                    assert(leases_fault(*dto, (i + 1) as nat) == Some(e@));
                    lemma_fault_stays(*dto, (i + 1) as nat, dto.static_lease@.len());
                }
                return Err(e);
            },
        }
        i = i + 1;
    }
    Ok(())
}

/// A fault among the first leases stays the first one.
proof fn lemma_fault_stays(dto: PacketDataDto, m: nat, n: nat)
    requires
        m <= n,
        leases_fault(dto, m) is Some,
    ensures
        leases_fault(dto, n) == leases_fault(dto, m),
    decreases n,
{
    if m < n {
        lemma_fault_stays(dto, m, (n - 1) as nat);
    }
}

/// See [`knobs_fault`].
fn check_knobs(dto: &PacketDataDto) -> (r: Result<(), ConfigError>)
    ensures
        match r {
            Ok(_) => knobs_fault(*dto) is None,
            Err(e) => knobs_fault(*dto) == Some(e@),
        },
{
    if dto.timers.ready_timer > 15 {
        return Err(
            range_error(
                "packet_data.timers.ready_timer",
                "must be 0..=15 (4-bit table 28.112 field), got ",
                dto.timers.ready_timer as u64,
            ),
        );
    }
    if dto.timers.standby_timer > 15 {
        return Err(
            range_error(
                "packet_data.timers.standby_timer",
                "must be 0..=15 (4-bit table 28.122 field), got ",
                dto.timers.standby_timer as u64,
            ),
        );
    }
    if dto.timers.resp_wait_timer > 15 {
        return Err(
            range_error(
                "packet_data.timers.resp_wait_timer",
                "must be 0..=15 (4-bit table 28.116 field), got ",
                dto.timers.resp_wait_timer as u64,
            ),
        );
    }
    if dto.timers.pdu_priority_max > 7 {
        return Err(
            range_error(
                "packet_data.timers.pdu_priority_max",
                "must be 0..=7 (3-bit table 28.103 field), got ",
                dto.timers.pdu_priority_max as u64,
            ),
        );
    }
    if dto.pdch.idle_release_frames == 0 || dto.pdch.idle_release_frames > 1024 {
        return Err(
            range_error(
                "packet_data.pdch.idle_release_frames",
                "must be 1..=1024, got ",
                dto.pdch.idle_release_frames as u64,
            ),
        );
    }
    if dto.pdch.channel_width > 3 {
        return Err(
            range_error(
                "packet_data.pdch.channel_width",
                "must be 0..=3 (0=25 kHz, 1=50 kHz TEDS, 2=100 kHz, 3=150 kHz), got ",
                dto.pdch.channel_width as u64,
            ),
        );
    }
    if dto.pdch.dl_max_slots_per_frame < 1 || dto.pdch.dl_max_slots_per_frame > 3 {
        return Err(
            range_error(
                "packet_data.pdch.dl_max_slots_per_frame",
                "must be 1..=3 (eligible DL timeslots TS2/TS3/TS4), got ",
                dto.pdch.dl_max_slots_per_frame as u64,
            ),
        );
    }
    Ok(())
}

/// Checks a section and takes its settings over. The first fault is reported.
pub fn validate_packet_data_config(dto: PacketDataDto) -> (r: Result<CfgPacketData, ConfigError>)
    ensures
        match r {
            Ok(cfg) => packet_data_fault(dto) is None && compiles_to(dto, cfg),
            Err(e) => packet_data_fault(dto) == Some(e@),
        },
        r is Ok <==> acceptable(dto),
{
    proof {
        law_accepted_iff_acceptable(dto);
    }
    match check_pool(&dto) {
        Ok(_) => {},
        Err(e) => {
            return Err(e);
        },
    }
    match check_leases(&dto) {
        Ok(_) => {},
        Err(e) => {
            return Err(e);
        },
    }
    match check_knobs(&dto) {
        Ok(_) => {},
        Err(e) => {
            return Err(e);
        },
    }
    let mut static_lease: Vec<CfgStaticLease> = Vec::new();
    let mut i: usize = 0;
    while i < dto.static_lease.len()
        invariant
            i <= dto.static_lease@.len(),
            static_lease@ == compiled_leases(dto.static_lease@).take(i as int),
        decreases dto.static_lease@.len() - i,
    {
        let lease: StaticLeaseDto = dto.static_lease[i];
        static_lease.push(CfgStaticLease { issi: lease.issi, ipv4: lease.ipv4 });
        assert(static_lease@ =~= compiled_leases(dto.static_lease@).take(i + 1));
        i = i + 1;
    }
    assert(static_lease@ =~= compiled_leases(dto.static_lease@));
    Ok(
        CfgPacketData {
            enabled: dto.enabled,
            ipv4_pool_base: dto.ipv4_pool_base,
            ipv4_pool_prefix: dto.ipv4_pool_prefix,
            tun_name: dto.tun_name,
            tun_addr: dto.tun_addr,
            mtu: dto.mtu,
            static_lease,
            timers: CfgPacketDataTimers {
                ready_timer: dto.timers.ready_timer,
                standby_timer: dto.timers.standby_timer,
                resp_wait_timer: dto.timers.resp_wait_timer,
                pdu_priority_max: dto.timers.pdu_priority_max,
            },
            pdch: CfgPacketDataPdch {
                idle_release_frames: dto.pdch.idle_release_frames,
                multi_slot: dto.pdch.multi_slot,
                channel_width: dto.pdch.channel_width,
                dl_max_slots_per_frame: dto.pdch.dl_max_slots_per_frame,
                require_ms_capability: dto.pdch.require_ms_capability,
            },
        },
    )
}

/// Checks the section if there is one, and takes its settings over. Without a section the
/// defaults apply.
pub fn apply_packet_data_patch(dto: Option<PacketDataDto>) -> (r: Result<
    CfgPacketData,
    ConfigError,
>)
    ensures
        match (dto, r) {
            (Some(d), Ok(cfg)) => acceptable(d) && compiles_to(d, cfg),
            (Some(d), Err(e)) => !acceptable(d) && packet_data_fault(d) == Some(e@),
            (None, Ok(cfg)) => is_default(cfg),
            (None, Err(_)) => false,
        },
{
    match dto {
        Some(d) => validate_packet_data_config(d),
        None => Ok(CfgPacketData::default()),
    }
}

/// An accepted section makes a configuration whose MTU has a code.
pub proof fn law_accepted_mtu_has_code(dto: PacketDataDto, cfg: CfgPacketData)
    requires
        acceptable(dto),
        compiles_to(dto, cfg),
    ensures
        mtu_code(cfg.mtu) is Some,
{
}

/// The settings are those of the section, each under its own name.
pub proof fn law_settings_are_those_written(dto: PacketDataDto, cfg: CfgPacketData, i: int)
    requires
        compiles_to(dto, cfg),
    ensures
        cfg.enabled == dto.enabled,
        cfg.ipv4_pool_base.bits == dto.ipv4_pool_base.bits,
        cfg.ipv4_pool_prefix == dto.ipv4_pool_prefix,
        cfg.tun_name@ == dto.tun_name@,
        cfg.tun_addr.bits == dto.tun_addr.bits,
        cfg.mtu == dto.mtu,
        cfg.static_lease@.len() == dto.static_lease@.len(),
        0 <= i < dto.static_lease@.len() ==> cfg.static_lease@[i].issi == dto.static_lease@[i].issi
            && cfg.static_lease@[i].ipv4.bits == dto.static_lease@[i].ipv4.bits,
        cfg.timers.ready_timer == dto.timers.ready_timer,
        cfg.timers.standby_timer == dto.timers.standby_timer,
        cfg.timers.resp_wait_timer == dto.timers.resp_wait_timer,
        cfg.timers.pdu_priority_max == dto.timers.pdu_priority_max,
        cfg.pdch.idle_release_frames == dto.pdch.idle_release_frames,
        cfg.pdch.multi_slot == dto.pdch.multi_slot,
        cfg.pdch.channel_width == dto.pdch.channel_width,
        cfg.pdch.dl_max_slots_per_frame == dto.pdch.dl_max_slots_per_frame,
        cfg.pdch.require_ms_capability == dto.pdch.require_ms_capability,
{
}

proof fn lemma_in_pool(dto: PacketDataDto, a: Ipv4Addr)
    requires
        24 <= dto.ipv4_pool_prefix <= 30,
        network(dto.ipv4_pool_base.bits, dto.ipv4_pool_prefix) == dto.ipv4_pool_base.bits,
    ensures
        in_pool(dto, a) <==> dto.ipv4_pool_base.bits <= a.bits < dto.ipv4_pool_base.bits
            + subnet_size(dto.ipv4_pool_prefix),
{
    lemma_subnet_size(dto.ipv4_pool_prefix);
    let size = subnet_size(dto.ipv4_pool_prefix);
    let base = dto.ipv4_pool_base.bits as int;
    let x = a.bits as int;
    assert(base % size == 0);
    vstd::arithmetic::div_mod::lemma_fundamental_div_mod(x, size);
    vstd::arithmetic::div_mod::lemma_mod_bound(x, size);
    if base <= x < base + size {
        vstd::arithmetic::div_mod::lemma_add_mod_noop(base, x - base, size);
        vstd::arithmetic::div_mod::lemma_small_mod((x - base) as nat, size as nat);
        assert(x % size == x - base);
    }
}

/// A section is accepted exactly if a cell can run with it. The subnet has a prefix of 24 to 30
/// bits and begins at a multiple of its size; the interface lies in it, and not on its last
/// address; every lease lies in it, and no two share an address with each other or with the
/// interface, or a subscriber; the MTU is one of seven; and the timers and the channel keep to
/// the width of their fields.
pub proof fn law_what_a_cell_can_run_with(dto: PacketDataDto)
    ensures
        packet_data_fault(dto) is None <==> {
            let base = dto.ipv4_pool_base.bits as int;
            let size = pow2((32 - dto.ipv4_pool_prefix) as nat) as int;
            let tun = dto.tun_addr.bits;
            let leases = dto.static_lease@;
            &&& 24 <= dto.ipv4_pool_prefix && dto.ipv4_pool_prefix <= 30
            &&& base % size == 0
            &&& base <= tun && tun < base + size - 1
            &&& dto.mtu == 256 || dto.mtu == 512 || dto.mtu == 1024 || dto.mtu == 1280 || dto.mtu
                == 1500 || dto.mtu == 2048 || dto.mtu == 4096
            &&& forall|i: int|
                0 <= i < leases.len() ==> base <= (#[trigger] leases[i]).ipv4.bits
                    && leases[i].ipv4.bits < base + size && leases[i].ipv4.bits != tun
            &&& forall|i: int, j: int|
                0 <= i < j < leases.len() ==> (#[trigger] leases[i]).ipv4.bits != (
                #[trigger] leases[j]).ipv4.bits && leases[i].issi != leases[j].issi
            &&& dto.timers.ready_timer < 16 && dto.timers.standby_timer < 16
                && dto.timers.resp_wait_timer < 16
            &&& dto.timers.pdu_priority_max < 8
            &&& 0 < dto.pdch.idle_release_frames && dto.pdch.idle_release_frames <= 1024
            &&& dto.pdch.channel_width < 4
            &&& 0 < dto.pdch.dl_max_slots_per_frame && dto.pdch.dl_max_slots_per_frame < 4
        },
{
    law_accepted_iff_acceptable(dto);
    if 24 <= dto.ipv4_pool_prefix <= 30 {
        let base = dto.ipv4_pool_base.bits as int;
        let size = subnet_size(dto.ipv4_pool_prefix);
        lemma_subnet_size(dto.ipv4_pool_prefix);
        assert(network(dto.ipv4_pool_base.bits, dto.ipv4_pool_prefix) == base <==> base % size
            == 0);
        if base % size == 0 {
            lemma_in_pool(dto, dto.tun_addr);
            assert forall|i: int| 0 <= i < dto.static_lease@.len() implies (in_pool(
                dto,
                (#[trigger] dto.static_lease@[i]).ipv4,
            ) <==> base <= dto.static_lease@[i].ipv4.bits < base + size) by {
                lemma_in_pool(dto, dto.static_lease@[i].ipv4);
            }
        }
    }
}

/// The lengths that have a code are seven, from 256 to 4096 octets, and the codes number them
/// from zero on in increasing order.
pub proof fn law_mtu_codes(a: u16, b: u16)
    ensures
        mtu_code(a) is Some <==> a == 256 || a == 512 || a == 1024 || a == 1280 || a == 1500 || a
            == 2048 || a == 4096,
        mtu_code(a) matches Some(c) ==> c < 7,
        mtu_code(a) is Some && mtu_code(b) is Some && a < b ==> mtu_code(a)->0 < mtu_code(b)->0,
{
}

} // verus!
