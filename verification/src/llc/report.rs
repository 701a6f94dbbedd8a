//! Printed state of the basic link.

use crate::llc::entity::{expected_views, ExpectedInAck, ExpectedView, ScheduledOutAck};
use crate::saps::TxState;
use crate::tdma::TdmaTime;
use crate::text::{append_decimal, decimal};
use vstd::prelude::*;
use vstd::string::StringExecFns;

verus! {

/// One scheduled acknowledgement, on a line of its own.
pub open spec fn scheduled_ack_line(a: ScheduledOutAck) -> Seq<char> {
    "  t_start: "@ + decimal(a.t_start.t as nat) + ", ssi: "@ + decimal(a.addr.ssi as nat)
        + ", carrier: "@ + decimal(a.carrier_num as nat) + ", n: "@ + decimal(a.nr as nat) + "\n"@
}

/// A heading and a line for each scheduled acknowledgement.
pub open spec fn scheduled_ack_text(acks: Seq<ScheduledOutAck>) -> Seq<char>
    decreases acks.len(),
{
    if acks.len() == 0 {
        "Scheduled out acks:\n"@
    } else {
        scheduled_ack_text(acks.drop_last()) + scheduled_ack_line(acks.last())
    }
}

/// See [`scheduled_ack_text`].
pub fn format_scheduled_ack_list(ack_list: &Vec<ScheduledOutAck>) -> (r: String)
    ensures
        r@ == scheduled_ack_text(ack_list@),
{
    let mut r: String = "Scheduled out acks:\n".to_owned();
    let mut i: usize = 0;
    while i < ack_list.len()
        invariant
            i <= ack_list@.len(),
            r@ == scheduled_ack_text(ack_list@.take(i as int)),
        decreases ack_list@.len() - i,
    {
        let ghost before = r@;
        r.append("  t_start: ");
        append_decimal(&mut r, ack_list[i].t_start.t as u64);
        r.append(", ssi: ");
        append_decimal(&mut r, ack_list[i].addr.ssi as u64);
        r.append(", carrier: ");
        append_decimal(&mut r, ack_list[i].carrier_num as u64);
        r.append(", n: ");
        append_decimal(&mut r, ack_list[i].nr as u64);
        r.append("\n");
        proof {
            let t = ack_list@.take(i + 1);
            assert(t.drop_last() =~= ack_list@.take(i as int));
            assert(t.last() == ack_list@[i as int]);
            assert(r@ =~= before + scheduled_ack_line(ack_list@[i as int]));
        }
        i = i + 1;
    }
    assert(ack_list@.take(i as int) =~= ack_list@);
    r
}

/// A time with the names of its counters.
pub open spec fn time_text(x: TdmaTime) -> Seq<char> {
    "TdmaTime { h: "@ + decimal(x.h as nat) + ", m: "@ + decimal(x.m as nat) + ", f: "@ + decimal(
        x.f as nat,
    ) + ", t: "@ + decimal(x.t as nat) + " }"@
}

/// A time that may be missing.
pub open spec fn optional_time_text(x: Option<TdmaTime>) -> Seq<char> {
    match x {
        Some(t) => "Some("@ + time_text(t) + ")"@,
        None => "None"@,
    }
}

/// The name of a state.
pub open spec fn state_text(x: TxState) -> Seq<char> {
    match x {
        TxState::Pending => "Pending"@,
        TxState::Transmitted => "Transmitted"@,
        TxState::Discarded => "Discarded"@,
        TxState::Acknowledged => "Acknowledged"@,
        TxState::Lost => "Lost"@,
    }
}

/// To whom a message goes, and how often it was sent again.
pub open spec fn message_text(e: ExpectedView) -> Seq<char> {
    "  ssi: "@ + decimal(e.addr.ssi as nat) + ", carrier: "@ + decimal(e.carrier_num as nat)
        + ", n: "@ + decimal(e.ns as nat) + ", retransmissions: "@ + decimal(
        e.retransmit_count as nat,
    )
}

/// How far a message has come.
pub open spec fn progress_text(e: ExpectedView) -> Seq<char> {
    ", t_first: "@ + time_text(e.t_first) + ", t_umac_done: "@ + optional_time_text(e.t_umac_done)
        + ", state: "@ + state_text(e.tx_reporter.state) + "\n"@
}

/// One message that waits for its acknowledgement, on a line of its own.
pub open spec fn expected_ack_line(e: ExpectedView) -> Seq<char> {
    message_text(e) + progress_text(e)
}

/// A heading and a line for each message that waits for its acknowledgement.
pub open spec fn expected_ack_text(s: Seq<ExpectedView>) -> Seq<char>
    decreases s.len(),
{
    if s.len() == 0 {
        "Expected in acks:\n"@
    } else {
        expected_ack_text(s.drop_last()) + expected_ack_line(s.last())
    }
}

/// Appends a time.
fn append_time(r: &mut String, x: TdmaTime)
    ensures
        final(r)@ == old(r)@ + time_text(x),
{
    let ghost before = r@;
    r.append("TdmaTime { h: ");
    append_decimal(r, x.h as u64);
    r.append(", m: ");
    append_decimal(r, x.m as u64);
    r.append(", f: ");
    append_decimal(r, x.f as u64);
    r.append(", t: ");
    append_decimal(r, x.t as u64);
    r.append(" }");
    assert(r@ =~= before + time_text(x));
}

/// Appends a time that may be missing.
fn append_optional_time(r: &mut String, x: Option<TdmaTime>)
    ensures
        final(r)@ == old(r)@ + optional_time_text(x),
{
    let ghost before = r@;
    match x {
        Some(t) => {
            r.append("Some(");
            append_time(r, t);
            r.append(")");
        },
        None => {
            r.append("None");
        },
    }
    assert(r@ =~= before + optional_time_text(x));
}

/// Appends the name of a state.
fn append_state(r: &mut String, x: TxState)
    ensures
        final(r)@ == old(r)@ + state_text(x),
{
    match x {
        TxState::Pending => r.append("Pending"),
        TxState::Transmitted => r.append("Transmitted"),
        TxState::Discarded => r.append("Discarded"),
        TxState::Acknowledged => r.append("Acknowledged"),
        TxState::Lost => r.append("Lost"),
    }
}

/// Appends the first half of a line.
fn append_message(r: &mut String, e: &ExpectedInAck)
    ensures
        final(r)@ == old(r)@ + message_text(e@),
{
    let ghost before = r@;
    r.append("  ssi: ");
    append_decimal(r, e.addr.ssi as u64);
    r.append(", carrier: ");
    append_decimal(r, e.carrier_num as u64);
    r.append(", n: ");
    append_decimal(r, e.ns as u64);
    r.append(", retransmissions: ");
    append_decimal(r, e.retransmit_count as u64);
    assert(r@ =~= before + message_text(e@));
}

/// Appends the second half of a line.
fn append_progress(r: &mut String, e: &ExpectedInAck)
    ensures
        final(r)@ == old(r)@ + progress_text(e@),
{
    let ghost before = r@;
    r.append(", t_first: ");
    append_time(r, e.t_first);
    r.append(", t_umac_done: ");
    append_optional_time(r, e.t_umac_done);
    r.append(", state: ");
    append_state(r, e.tx_reporter.state);
    r.append("\n");
    assert(r@ =~= before + progress_text(e@));
}

/// See [`expected_ack_text`].
pub fn format_expected_ack_list(ack_list: &Vec<ExpectedInAck>) -> (r: String)
    ensures
        r@ == expected_ack_text(expected_views(ack_list@)),
{
    let ghost s = expected_views(ack_list@);
    let mut r: String = "Expected in acks:\n".to_owned();
    let mut i: usize = 0;
    while i < ack_list.len()
        invariant
            i <= ack_list@.len(),
            s == expected_views(ack_list@),
            r@ == expected_ack_text(s.take(i as int)),
        decreases ack_list@.len() - i,
    {
        let ghost before = r@;
        assert(s[i as int] == ack_list@[i as int]@);
        append_message(&mut r, &ack_list[i]);
        append_progress(&mut r, &ack_list[i]);
        proof {
            let t = s.take(i + 1);
            assert(t.drop_last() =~= s.take(i as int));
            assert(t.last() == s[i as int]);
            assert(r@ =~= before + expected_ack_line(s[i as int]));
        }
        i = i + 1;
    }
    assert(s.take(i as int) =~= s);
    r
}

} // verus!
