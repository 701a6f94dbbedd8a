//! Report of the settings that depart from the standard for the sake of certain terminals.

use crate::sec_llc::{CfgLlc, InteropProfile};
use vstd::prelude::*;

verus! {

/// A line of the report.
#[derive(Debug, Clone, Copy)]
pub enum InteropRecord {
    /// For information: the active profile.
    Profile { interop_profile: InteropProfile, message: &'static str },
    /// A warning: a gate is open.
    Gate {
        /// Dotted path of the setting.
        gate: &'static str,
        /// The clause of the standard that it touches.
        spec: &'static str,
        /// Who it is for.
        interop_target: &'static str,
        profile_hint: InteropProfile,
        /// What it does.
        effect: &'static str,
    },
}

/// What an [`InteropRecord`] says.
pub enum RecordView {
    Profile { interop_profile: InteropProfile, message: Seq<char> },
    Gate {
        gate: Seq<char>,
        spec: Seq<char>,
        interop_target: Seq<char>,
        profile_hint: InteropProfile,
        effect: Seq<char>,
    },
}

impl View for InteropRecord {
    type V = RecordView;

    open spec fn view(&self) -> RecordView {
        match *self {
            InteropRecord::Profile { interop_profile, message } => RecordView::Profile {
                interop_profile,
                message: message@,
            },
            InteropRecord::Gate { gate, spec, interop_target, profile_hint, effect } =>
            RecordView::Gate {
                gate: gate@,
                spec: spec@,
                interop_target: interop_target@,
                profile_hint,
                effect: effect@,
            },
        }
    }
}

/// The records of a list, each by what it says.
pub open spec fn record_views(s: Seq<InteropRecord>) -> Seq<RecordView> {
    Seq::new(s.len(), |i: int| s[i]@)
}

/// The line that names the active profile.
pub open spec fn profile_line(p: InteropProfile) -> RecordView {
    RecordView::Profile { interop_profile: p, message: "PD-REWRITE C6: interop profile active"@ }
}

/// The warning that N.273 = 0 is read as "bounded by N.274".
pub open spec fn retry_gate(p: InteropProfile) -> RecordView {
    RecordView::Gate {
        gate: "llc.advanced_link.n273_zero_ack_uses_seg_cap"@,
        spec: "ETSI TS 100 392-2 §22.3.3.2 + Annex A"@,
        interop_target: "MTP6550 WSP portal"@,
        profile_hint: p,
        effect: "interop gate enabled: N.273=0 on ACK link coerced to N.274 (spec-noncompliant)"@,
    }
}

/// The warning that repeated TL-SDUs are confirmed and not delivered again.
pub open spec fn dedupe_gate(p: InteropProfile) -> RecordView {
    RecordView::Gate {
        gate: "llc.advanced_link.dedupe_completed_ns"@,
        spec: "ETSI TS 100 392-2 §22.3.3.2.7 NOTE 6 (spec-legal)"@,
        interop_target: "MTP3550 WSP portal / WTP replay-cascade prevention"@,
        profile_hint: p,
        effect: "interop gate enabled: LLC dedupes below-window N(S) segments and re-ACKs without redelivery"@,
    }
}

/// The warning that a repeated AL-SETUP forgets what was received in part.
pub open spec fn echo_gate(p: InteropProfile) -> RecordView {
    RecordView::Gate {
        gate: "llc.advanced_link.h47_cached_echo_clears_rx"@,
        spec: "ETSI TS 100 392-2 §22.3.3.2 + duplicate-SETUP handling (spec-legal)"@,
        interop_target: "MTP3550 fresh-re-establishment after cached-echo"@,
        profile_hint: p,
        effect: "interop gate enabled: cached-echo re-emission clears RX reassembler state"@,
    }
}

/// A line if it applies.
pub open spec fn line_if(applies: bool, line: RecordView) -> Seq<RecordView> {
    if applies {
        seq![line]
    } else {
        Seq::empty()
    }
}

/// The warnings: one for each gate that is open.
pub open spec fn gate_lines(cfg: CfgLlc) -> Seq<RecordView> {
    line_if(
        cfg.advanced_link.n273_zero_ack_uses_seg_cap,
        retry_gate(cfg.interop_profile),
    ) + line_if(cfg.advanced_link.dedupe_completed_ns, dedupe_gate(cfg.interop_profile)) + line_if(
        cfg.advanced_link.h47_cached_echo_clears_rx,
        echo_gate(cfg.interop_profile),
    )
}

/// Appends one record.
fn push_record(log: &mut Vec<InteropRecord>, record: InteropRecord)
    ensures
        record_views(final(log)@) == record_views(old(log)@).push(record@),
{
    log.push(record);
    assert(record_views(log@) =~= record_views(old(log)@).push(record@));
}

/// Appends the report to the log: the active profile, always, and a warning for each gate
/// that is open. Returns the number of warnings.
pub fn log_enabled_interop_gates(cfg: &CfgLlc, log: &mut Vec<InteropRecord>) -> (r: usize)
    ensures
        record_views(final(log)@) == record_views(old(log)@).push(profile_line(cfg.interop_profile))
            + gate_lines(*cfg),
        r == gate_lines(*cfg).len(),
{
    let ghost before = record_views(log@);
    let profile: InteropProfile = cfg.interop_profile;
    push_record(
        log,
        InteropRecord::Profile {
            interop_profile: profile,
            message: "PD-REWRITE C6: interop profile active",
        },
    );
    let mut count: usize = 0;
    if cfg.advanced_link.n273_zero_ack_uses_seg_cap {
        push_record(
            log,
            InteropRecord::Gate {
                gate: "llc.advanced_link.n273_zero_ack_uses_seg_cap",
                spec: "ETSI TS 100 392-2 §22.3.3.2 + Annex A",
                interop_target: "MTP6550 WSP portal",
                profile_hint: profile,
                effect: "interop gate enabled: N.273=0 on ACK link coerced to N.274 (spec-noncompliant)",
            },
        );
        count = count + 1;
    }
    if cfg.advanced_link.dedupe_completed_ns {
        push_record(
            log,
            InteropRecord::Gate {
                gate: "llc.advanced_link.dedupe_completed_ns",
                spec: "ETSI TS 100 392-2 §22.3.3.2.7 NOTE 6 (spec-legal)",
                interop_target: "MTP3550 WSP portal / WTP replay-cascade prevention",
                profile_hint: profile,
                effect: "interop gate enabled: LLC dedupes below-window N(S) segments and re-ACKs without redelivery",
            },
        );
        count = count + 1;
    }
    if cfg.advanced_link.h47_cached_echo_clears_rx {
        push_record(
            log,
            InteropRecord::Gate {
                gate: "llc.advanced_link.h47_cached_echo_clears_rx",
                spec: "ETSI TS 100 392-2 §22.3.3.2 + duplicate-SETUP handling (spec-legal)",
                interop_target: "MTP3550 fresh-re-establishment after cached-echo",
                profile_hint: profile,
                effect: "interop gate enabled: cached-echo re-emission clears RX reassembler state",
            },
        );
        count = count + 1;
    }
    assert(record_views(log@) =~= before.push(profile_line(profile)) + gate_lines(*cfg));
    count
}

/// With every gate closed there is no warning.
pub proof fn law_no_warning_without_gate(cfg: CfgLlc)
    requires
        !cfg.advanced_link.n273_zero_ack_uses_seg_cap,
        !cfg.advanced_link.dedupe_completed_ns,
        !cfg.advanced_link.h47_cached_echo_clears_rx,
    ensures
        gate_lines(cfg) == Seq::<RecordView>::empty(),
{
}

/// The line warns of the setting with this name, under this profile.
pub open spec fn warns_of(r: RecordView, name: Seq<char>, p: InteropProfile) -> bool {
    r matches RecordView::Gate { gate, profile_hint, .. } && gate == name && profile_hint == p
}

/// There is one warning for each open gate, in the order retry, dedupe, echo, and none for a
/// closed one. Each names its gate and the profile.
pub proof fn law_each_open_gate_is_told(cfg: CfgLlc)
    ensures
        ({
            let al = cfg.advanced_link;
            let g = gate_lines(cfg);
            let one = if al.n273_zero_ack_uses_seg_cap {
                1int
            } else {
                0int
            };
            let two = if al.dedupe_completed_ns {
                one + 1
            } else {
                one
            };
            &&& g.len() == if al.h47_cached_echo_clears_rx {
                two + 1
            } else {
                two
            }
            &&& al.n273_zero_ack_uses_seg_cap ==> warns_of(
                g[0],
                "llc.advanced_link.n273_zero_ack_uses_seg_cap"@,
                cfg.interop_profile,
            )
            &&& al.dedupe_completed_ns ==> warns_of(
                g[one],
                "llc.advanced_link.dedupe_completed_ns"@,
                cfg.interop_profile,
            )
            &&& al.h47_cached_echo_clears_rx ==> warns_of(
                g[two],
                "llc.advanced_link.h47_cached_echo_clears_rx"@,
                cfg.interop_profile,
            )
        }),
{
}

} // verus!
