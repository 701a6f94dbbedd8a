//! `[llc]` configuration section.

use crate::text::{decimal, with_number};
use vstd::prelude::*;
use vstd::string::StringExecFns;

verus! {

/// Settings of the advanced link.
#[derive(Debug, Clone, Copy, PartialEq, Eq, Structural)]
pub struct CfgAdvancedLink {
    /// Octets of TL-SDU in each AL-DATA or AL-FINAL.
    pub segment_payload_octets: u16,
    /// Transmit window (N.272).
    pub tx_window: u8,
    /// Retransmissions of a TL-SDU (N.273).
    pub max_sdu_retx: u8,
    /// Retransmissions of a segment (N.274).
    pub max_segment_retx: u8,
    /// Retries of AL-SETUP (N.262).
    pub max_setup_retries: u8,
    /// Retries of AL-DISC (N.263).
    pub max_disc_retries: u8,
    /// Retries of AL-RECONNECT (N.265).
    pub max_reconnect_retries: u8,
    /// Longest TL-SDU in octets (N.271).
    pub max_tl_sdu_octets: u16,
    /// Answer a repeated AL-SETUP with the echo sent before.
    pub cache_setup_echo: bool,
    /// Confirm a repeated TL-SDU without delivering it again.
    pub dedupe_completed_ns: bool,
    /// Forget what was received in part when a repeated AL-SETUP is answered from
    /// the cache.
    pub h47_cached_echo_clears_rx: bool,
    /// On an acknowledged link that negotiated N.273 = 0, let N.274 bound the
    /// retransmissions.
    pub n273_zero_ack_uses_seg_cap: bool,
}

/// A setting that was rejected.
#[derive(Debug, Clone, PartialEq, Eq)]
pub struct ConfigError {
    /// Dotted path of the setting.
    pub field: &'static str,
    /// The constraint that it breaks.
    pub message: String,
}

/// What a [`ConfigError`] says.
pub struct Fault {
    pub field: Seq<char>,
    pub message: Seq<char>,
}

impl View for ConfigError {
    type V = Fault;

    open spec fn view(&self) -> Fault {
        Fault { field: self.field@, message: self.message@ }
    }
}

impl ConfigError {
    /// The error in one line: the path and the constraint.
    pub fn to_string(&self) -> (r: String)
        ensures
            r@ == self.field@ + ": "@ + self.message@,
    {
        let mut r: String = self.field.to_owned();
        r.append(": ");
        r.append(self.message.as_str());
        r
    }
}

/// The settings that apply when nothing is configured.
pub open spec fn default_advanced_link() -> CfgAdvancedLink {
    CfgAdvancedLink {
        segment_payload_octets: 50,
        tx_window: 3,
        max_sdu_retx: 3,
        max_segment_retx: 3,
        max_setup_retries: 3,
        max_disc_retries: 3,
        max_reconnect_retries: 3,
        max_tl_sdu_octets: 4096,
        cache_setup_echo: true,
        dedupe_completed_ns: true,
        h47_cached_echo_clears_rx: true,
        n273_zero_ack_uses_seg_cap: false,
    }
}

impl Default for CfgAdvancedLink {
    fn default() -> (r: CfgAdvancedLink)
        ensures
            r == default_advanced_link(),
    {
        CfgAdvancedLink {
            segment_payload_octets: 50,
            tx_window: 3,
            max_sdu_retx: 3,
            max_segment_retx: 3,
            max_setup_retries: 3,
            max_disc_retries: 3,
            max_reconnect_retries: 3,
            max_tl_sdu_octets: 4096,
            cache_setup_echo: true,
            dedupe_completed_ns: true,
            h47_cached_echo_clears_rx: true,
            n273_zero_ack_uses_seg_cap: false,
        }
    }
}

/// A named bundle of settings for the quirks of a family of terminals.
#[derive(Debug, Clone, Copy, PartialEq, Eq, Structural)]
pub enum InteropProfile {
    Standard,
    Mtp3550Interop,
    Mtp6550Interop,
    Custom,
}

/// The name of a profile in the configuration.
pub open spec fn profile_name(p: InteropProfile) -> Seq<char> {
    match p {
        InteropProfile::Standard => "standard"@,
        InteropProfile::Mtp3550Interop => "mtp3550_interop"@,
        InteropProfile::Mtp6550Interop => "mtp6550_interop"@,
        InteropProfile::Custom => "custom"@,
    }
}

impl InteropProfile {
    /// See [`profile_name`].
    pub fn name(self) -> (r: &'static str)
        ensures
            r@ == profile_name(self),
    {
        match self {
            InteropProfile::Standard => "standard",
            InteropProfile::Mtp3550Interop => "mtp3550_interop",
            InteropProfile::Mtp6550Interop => "mtp6550_interop",
            InteropProfile::Custom => "custom",
        }
    }
}

impl Default for InteropProfile {
    fn default() -> (r: InteropProfile)
        ensures
            r == InteropProfile::Standard,
    {
        InteropProfile::Standard
    }
}

/// Settings of the LLC.
#[derive(Debug, Clone, Copy, PartialEq, Eq, Structural)]
pub struct CfgLlc {
    pub interop_profile: InteropProfile,
    pub advanced_link: CfgAdvancedLink,
}

impl Default for CfgLlc {
    fn default() -> (r: CfgLlc)
        ensures
            r == (CfgLlc {
                interop_profile: InteropProfile::Standard,
                advanced_link: default_advanced_link(),
            }),
    {
        CfgLlc {
            interop_profile: InteropProfile::default(),
            advanced_link: CfgAdvancedLink::default(),
        }
    }
}

/// The `[llc.advanced_link]` section as written. A setting that is absent has its default.
#[derive(Debug, Clone)]
pub struct AdvancedLinkDto {
    pub segment_payload_octets: u16,
    pub tx_window: u8,
    pub max_sdu_retx: u8,
    pub max_segment_retx: u8,
    pub max_setup_retries: u8,
    pub max_disc_retries: u8,
    pub max_reconnect_retries: u8,
    pub max_tl_sdu_octets: u16,
    /// No longer used; still accepted, so that an old file loads.
    pub proactive_disc_on_retx_exhaust: Option<bool>,
    pub cache_setup_echo: bool,
    pub dedupe_completed_ns: bool,
    pub h47_cached_echo_clears_rx: bool,
    pub n273_zero_ack_uses_seg_cap: bool,
    /// Settings that are not known, by name.
    pub extra: Vec<String>,
}

pub fn default_segment_payload_octets() -> (r: u16)
    ensures
        r == default_advanced_link().segment_payload_octets,
{
    50
}

pub fn default_tx_window() -> (r: u8)
    ensures
        r == default_advanced_link().tx_window,
{
    3
}

pub fn default_max_sdu_retx() -> (r: u8)
    ensures
        r == default_advanced_link().max_sdu_retx,
{
    3
}

pub fn default_max_segment_retx() -> (r: u8)
    ensures
        r == default_advanced_link().max_segment_retx,
{
    3
}

pub fn default_max_setup_retries() -> (r: u8)
    ensures
        r == default_advanced_link().max_setup_retries,
{
    3
}

pub fn default_max_disc_retries() -> (r: u8)
    ensures
        r == default_advanced_link().max_disc_retries,
{
    3
}

pub fn default_max_reconnect_retries() -> (r: u8)
    ensures
        r == default_advanced_link().max_reconnect_retries,
{
    3
}

pub fn default_max_tl_sdu_octets() -> (r: u16)
    ensures
        r == default_advanced_link().max_tl_sdu_octets,
{
    4096
}

pub fn default_cache_setup_echo() -> (r: bool)
    ensures
        r == default_advanced_link().cache_setup_echo,
{
    true
}

pub fn default_dedupe_completed_ns() -> (r: bool)
    ensures
        r == default_advanced_link().dedupe_completed_ns,
{
    true
}

pub fn default_h47_cached_echo_clears_rx() -> (r: bool)
    ensures
        r == default_advanced_link().h47_cached_echo_clears_rx,
{
    true
}

pub fn default_n273_zero_ack_uses_seg_cap() -> (r: bool)
    ensures
        r == default_advanced_link().n273_zero_ack_uses_seg_cap,
{
    false
}

impl Default for AdvancedLinkDto {
    fn default() -> (r: AdvancedLinkDto)
        ensures
            compiled(r) == default_advanced_link(),
            r.proactive_disc_on_retx_exhaust is None,
            r.extra@.len() == 0,
    {
        AdvancedLinkDto {
            segment_payload_octets: default_segment_payload_octets(),
            tx_window: default_tx_window(),
            max_sdu_retx: default_max_sdu_retx(),
            max_segment_retx: default_max_segment_retx(),
            max_setup_retries: default_max_setup_retries(),
            max_disc_retries: default_max_disc_retries(),
            max_reconnect_retries: default_max_reconnect_retries(),
            max_tl_sdu_octets: default_max_tl_sdu_octets(),
            proactive_disc_on_retx_exhaust: None,
            cache_setup_echo: default_cache_setup_echo(),
            dedupe_completed_ns: default_dedupe_completed_ns(),
            h47_cached_echo_clears_rx: default_h47_cached_echo_clears_rx(),
            n273_zero_ack_uses_seg_cap: default_n273_zero_ack_uses_seg_cap(),
            extra: Vec::new(),
        }
    }
}

/// The `[llc]` section as written.
#[derive(Debug, Clone)]
pub struct CfgLlcDto {
    pub advanced_link: Option<AdvancedLinkDto>,
    /// Settings that are not known, by name.
    pub extra: Vec<String>,
}

impl Default for CfgLlcDto {
    fn default() -> (r: CfgLlcDto)
        ensures
            r.advanced_link is None,
            r.extra@.len() == 0,
    {
        CfgLlcDto { advanced_link: None, extra: Vec::new() }
    }
}

/// The settings that a section stands for.
pub open spec fn compiled(dto: AdvancedLinkDto) -> CfgAdvancedLink {
    CfgAdvancedLink {
        segment_payload_octets: dto.segment_payload_octets,
        tx_window: dto.tx_window,
        max_sdu_retx: dto.max_sdu_retx,
        max_segment_retx: dto.max_segment_retx,
        max_setup_retries: dto.max_setup_retries,
        max_disc_retries: dto.max_disc_retries,
        max_reconnect_retries: dto.max_reconnect_retries,
        max_tl_sdu_octets: dto.max_tl_sdu_octets,
        cache_setup_echo: dto.cache_setup_echo,
        dedupe_completed_ns: dto.dedupe_completed_ns,
        h47_cached_echo_clears_rx: dto.h47_cached_echo_clears_rx,
        n273_zero_ack_uses_seg_cap: dto.n273_zero_ack_uses_seg_cap,
    }
}

/// The lengths that N.271 can encode.
pub open spec fn is_n271(v: u16) -> bool {
    v == 32 || v == 64 || v == 128 || v == 256 || v == 512 || v == 1024 || v == 2048 || v == 4096
}

/// Every setting lies in its range.
pub open spec fn in_range(dto: AdvancedLinkDto) -> bool {
    &&& 1 <= dto.segment_payload_octets <= 512
    &&& 1 <= dto.tx_window <= 3
    &&& dto.max_sdu_retx <= 7
    &&& dto.max_segment_retx <= 15
    &&& 1 <= dto.max_setup_retries <= 5
    &&& 3 <= dto.max_disc_retries <= 5
    &&& dto.max_reconnect_retries <= 5
    &&& is_n271(dto.max_tl_sdu_octets)
}

/// A setting with a value that its range leaves out.
pub open spec fn fault(field: &str, constraint: &str, value: int) -> Option<Fault> {
    Some(Fault { field: field@, message: constraint@ + decimal(value as nat) })
}

/// The first setting that lies outside its range, if there is one.
pub open spec fn advanced_link_fault(dto: AdvancedLinkDto) -> Option<Fault> {
    if !(1 <= dto.segment_payload_octets <= 512) {
        fault(
            "llc.advanced_link.segment_payload_octets",
            "must be 1..=512 octets (MAC block budget), got ",
            dto.segment_payload_octets as int,
        )
    } else if !(1 <= dto.tx_window <= 3) {
        fault(
            "llc.advanced_link.tx_window",
            "must be 1..=3 for original AL (N.272), got ",
            dto.tx_window as int,
        )
    } else if !(dto.max_sdu_retx <= 7) {
        fault(
            "llc.advanced_link.max_sdu_retx",
            "must be 0..=7 (3-bit N.273 field), got ",
            dto.max_sdu_retx as int,
        )
    } else if !(dto.max_segment_retx <= 15) {
        fault(
            "llc.advanced_link.max_segment_retx",
            "must be 0..=15 (4-bit N.274 field), got ",
            dto.max_segment_retx as int,
        )
    } else if !(1 <= dto.max_setup_retries <= 5) {
        fault(
            "llc.advanced_link.max_setup_retries",
            "must be 1..=5 (N.262 spec range), got ",
            dto.max_setup_retries as int,
        )
    } else if !(3 <= dto.max_disc_retries <= 5) {
        fault(
            "llc.advanced_link.max_disc_retries",
            "must be 3..=5 (N.263 spec range), got ",
            dto.max_disc_retries as int,
        )
    } else if !(dto.max_reconnect_retries <= 5) {
        fault(
            "llc.advanced_link.max_reconnect_retries",
            "must be 0..=5 (N.265 spec range), got ",
            dto.max_reconnect_retries as int,
        )
    } else if !(is_n271(dto.max_tl_sdu_octets)) {
        fault(
            "llc.advanced_link.max_tl_sdu_octets",
            "must be one of [32, 64, 128, 256, 512, 1024, 2048, 4096] (N.271 power-of-two encoding), got ",
            dto.max_tl_sdu_octets as int,
        )
    } else {
        None
    }
}

/// An error that names a setting, a constraint and the value found.
pub(crate) fn range_error(field: &'static str, constraint: &str, value: u64) -> (r: ConfigError)
    ensures
        Some(r@) == fault(field, constraint, value as int),
{
    ConfigError { field, message: with_number(constraint, value) }
}

/// Checks a section and takes its settings over. The first setting outside its range is
/// reported.
pub fn validate_advanced_link_config(dto: AdvancedLinkDto) -> (r: Result<
    CfgAdvancedLink,
    ConfigError,
>)
    ensures
        match r {
            Ok(cfg) => advanced_link_fault(dto) is None && cfg == compiled(dto),
            Err(e) => advanced_link_fault(dto) == Some(e@),
        },
        r is Ok <==> in_range(dto),
{
    if dto.segment_payload_octets < 1 || dto.segment_payload_octets > 512 {
        return Err(
            range_error(
                "llc.advanced_link.segment_payload_octets",
                "must be 1..=512 octets (MAC block budget), got ",
                dto.segment_payload_octets as u64,
            ),
        );
    }
    if dto.tx_window < 1 || dto.tx_window > 3 {
        return Err(
            range_error(
                "llc.advanced_link.tx_window",
                "must be 1..=3 for original AL (N.272), got ",
                dto.tx_window as u64,
            ),
        );
    }
    if dto.max_sdu_retx > 7 {
        return Err(
            range_error(
                "llc.advanced_link.max_sdu_retx",
                "must be 0..=7 (3-bit N.273 field), got ",
                dto.max_sdu_retx as u64,
            ),
        );
    }
    if dto.max_segment_retx > 15 {
        return Err(
            range_error(
                "llc.advanced_link.max_segment_retx",
                "must be 0..=15 (4-bit N.274 field), got ",
                dto.max_segment_retx as u64,
            ),
        );
    }
    if dto.max_setup_retries < 1 || dto.max_setup_retries > 5 {
        return Err(
            range_error(
                "llc.advanced_link.max_setup_retries",
                "must be 1..=5 (N.262 spec range), got ",
                dto.max_setup_retries as u64,
            ),
        );
    }
    if dto.max_disc_retries < 3 || dto.max_disc_retries > 5 {
        return Err(
            range_error(
                "llc.advanced_link.max_disc_retries",
                "must be 3..=5 (N.263 spec range), got ",
                dto.max_disc_retries as u64,
            ),
        );
    }
    if dto.max_reconnect_retries > 5 {
        return Err(
            range_error(
                "llc.advanced_link.max_reconnect_retries",
                "must be 0..=5 (N.265 spec range), got ",
                dto.max_reconnect_retries as u64,
            ),
        );
    }
    if dto.max_tl_sdu_octets != 32 && dto.max_tl_sdu_octets != 64 && dto.max_tl_sdu_octets != 128
        && dto.max_tl_sdu_octets != 256 && dto.max_tl_sdu_octets != 512 && dto.max_tl_sdu_octets
        != 1024 && dto.max_tl_sdu_octets != 2048 && dto.max_tl_sdu_octets != 4096 {
        return Err(
            range_error(
                "llc.advanced_link.max_tl_sdu_octets",
                "must be one of [32, 64, 128, 256, 512, 1024, 2048, 4096] (N.271 power-of-two encoding), got ",
                dto.max_tl_sdu_octets as u64,
            ),
        );
    }
    Ok(
        CfgAdvancedLink {
            segment_payload_octets: dto.segment_payload_octets,
            tx_window: dto.tx_window,
            max_sdu_retx: dto.max_sdu_retx,
            max_segment_retx: dto.max_segment_retx,
            max_setup_retries: dto.max_setup_retries,
            max_disc_retries: dto.max_disc_retries,
            max_reconnect_retries: dto.max_reconnect_retries,
            max_tl_sdu_octets: dto.max_tl_sdu_octets,
            cache_setup_echo: dto.cache_setup_echo,
            dedupe_completed_ns: dto.dedupe_completed_ns,
            h47_cached_echo_clears_rx: dto.h47_cached_echo_clears_rx,
            n273_zero_ack_uses_seg_cap: dto.n273_zero_ack_uses_seg_cap,
        },
    )
}

/// Checks the `[llc]` section and takes its settings over. Without an advanced-link part
/// the defaults apply.
pub fn apply_llc_patch(dto: CfgLlcDto) -> (r: Result<CfgLlc, ConfigError>)
    ensures
        match r {
            Ok(cfg) => cfg.interop_profile == InteropProfile::Standard && (match dto.advanced_link {
                Some(al) => in_range(al) && cfg.advanced_link == compiled(al),
                None => cfg.advanced_link == default_advanced_link(),
            }),
            Err(e) => dto.advanced_link matches Some(al) && !in_range(al) && advanced_link_fault(
                al,
            ) == Some(e@),
        },
{
    let advanced_link: CfgAdvancedLink = match dto.advanced_link {
        Some(al) => match validate_advanced_link_config(al) {
            Ok(cfg) => cfg,
            Err(e) => {
                return Err(e);
            },
        },
        None => CfgAdvancedLink::default(),
    };
    Ok(CfgLlc { interop_profile: InteropProfile::Standard, advanced_link })
}

/// The defaults are in range.
pub proof fn law_defaults_in_range(dto: AdvancedLinkDto)
    requires
        compiled(dto) == default_advanced_link(),
    ensures
        in_range(dto),
        advanced_link_fault(dto) is None,
{
}

/// A section is accepted exactly if every setting lies in its range.
pub proof fn law_accepted_iff_in_range(dto: AdvancedLinkDto)
    ensures
        advanced_link_fault(dto) is None <==> in_range(dto),
{
}

/// The settings of the link are those of the section, each under its own name.
pub proof fn law_link_settings_are_those_written(dto: AdvancedLinkDto)
    ensures
        compiled(dto).segment_payload_octets == dto.segment_payload_octets,
        compiled(dto).tx_window == dto.tx_window,
        compiled(dto).max_sdu_retx == dto.max_sdu_retx,
        compiled(dto).max_segment_retx == dto.max_segment_retx,
        compiled(dto).max_setup_retries == dto.max_setup_retries,
        compiled(dto).max_disc_retries == dto.max_disc_retries,
        compiled(dto).max_reconnect_retries == dto.max_reconnect_retries,
        compiled(dto).max_tl_sdu_octets == dto.max_tl_sdu_octets,
        compiled(dto).cache_setup_echo == dto.cache_setup_echo,
        compiled(dto).dedupe_completed_ns == dto.dedupe_completed_ns,
        compiled(dto).h47_cached_echo_clears_rx == dto.h47_cached_echo_clears_rx,
        compiled(dto).n273_zero_ack_uses_seg_cap == dto.n273_zero_ack_uses_seg_cap,
{
}

/// A section is refused exactly if a setting leaves its range: segments of 1 to 512 octets, a
/// window of 1 to 3, at most 7 retransmissions of a TL-SDU and 15 of a segment, 1 to 5 set-up
/// retries, 3 to 5 disconnection retries, at most 5 reconnection retries, and a TL-SDU length
/// that is a power of two from 32 to 4096.
pub proof fn law_link_ranges(dto: AdvancedLinkDto)
    ensures
        advanced_link_fault(dto) is Some <==> {
            ||| dto.segment_payload_octets < 1 || dto.segment_payload_octets > 512
            ||| dto.tx_window < 1 || dto.tx_window > 3
            ||| dto.max_sdu_retx >= 8
            ||| dto.max_segment_retx >= 16
            ||| dto.max_setup_retries < 1 || dto.max_setup_retries > 5
            ||| dto.max_disc_retries < 3 || dto.max_disc_retries > 5
            ||| dto.max_reconnect_retries > 5
            ||| forall|e: nat|
                5 <= e <= 12 ==> dto.max_tl_sdu_octets != #[trigger] vstd::arithmetic::power2::pow2(e)
        },
{
    vstd::arithmetic::power2::lemma2_to64();
    assert forall|e: nat| 5 <= e <= 12 implies is_n271(
        #[trigger] vstd::arithmetic::power2::pow2(e) as u16,
    ) && vstd::arithmetic::power2::pow2(e) <= 4096 by {
        assert(e == 5 || e == 6 || e == 7 || e == 8 || e == 9 || e == 10 || e == 11 || e == 12);
    }
    if is_n271(dto.max_tl_sdu_octets) {
        let v = dto.max_tl_sdu_octets;
        assert(v == vstd::arithmetic::power2::pow2(5) || v == vstd::arithmetic::power2::pow2(6) || v
            == vstd::arithmetic::power2::pow2(7) || v == vstd::arithmetic::power2::pow2(8) || v
            == vstd::arithmetic::power2::pow2(9) || v == vstd::arithmetic::power2::pow2(10) || v
            == vstd::arithmetic::power2::pow2(11) || v == vstd::arithmetic::power2::pow2(12));
    }
}

/// A refused section is reported by the name of the first setting, in the order of the section,
/// that leaves its range.
pub proof fn law_link_fault_names_the_setting(dto: AdvancedLinkDto, ok: AdvancedLinkDto)
    requires
        advanced_link_fault(dto) is Some,
        advanced_link_fault(ok) is None,
    ensures
        ({
            let field = advanced_link_fault(dto)->0.field;
            let d1 = AdvancedLinkDto { segment_payload_octets: dto.segment_payload_octets, ..ok };
            let d2 = AdvancedLinkDto { tx_window: dto.tx_window, ..ok };
            let d3 = AdvancedLinkDto { max_sdu_retx: dto.max_sdu_retx, ..ok };
            let d4 = AdvancedLinkDto { max_segment_retx: dto.max_segment_retx, ..ok };
            let d5 = AdvancedLinkDto { max_setup_retries: dto.max_setup_retries, ..ok };
            let d6 = AdvancedLinkDto { max_disc_retries: dto.max_disc_retries, ..ok };
            let d7 = AdvancedLinkDto { max_reconnect_retries: dto.max_reconnect_retries, ..ok };
            if advanced_link_fault(d1) is Some {
                field == "llc.advanced_link.segment_payload_octets"@
            } else if advanced_link_fault(d2) is Some {
                field == "llc.advanced_link.tx_window"@
            } else if advanced_link_fault(d3) is Some {
                field == "llc.advanced_link.max_sdu_retx"@
            } else if advanced_link_fault(d4) is Some {
                field == "llc.advanced_link.max_segment_retx"@
            } else if advanced_link_fault(d5) is Some {
                field == "llc.advanced_link.max_setup_retries"@
            } else if advanced_link_fault(d6) is Some {
                field == "llc.advanced_link.max_disc_retries"@
            } else if advanced_link_fault(d7) is Some {
                field == "llc.advanced_link.max_reconnect_retries"@
            } else {
                field == "llc.advanced_link.max_tl_sdu_octets"@
            }
        }),
{
}

} // verus!
