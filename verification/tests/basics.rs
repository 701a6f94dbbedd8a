use tetra_pd::bits::BitBuffer;
use tetra_pd::ipv4::Ipv4Addr;
use tetra_pd::saps::{TetraAddress, SsiType, TimeslotSet};
use tetra_pd::tdma::{elapsed, TdmaTime};

#[test]
fn time_counts_slots_frames_and_multiframes() {
    let t = TdmaTime::default();
    assert_eq!(t, TdmaTime { h: 0, m: 1, f: 1, t: 1 });
    assert_eq!(t.add_timeslots(1), TdmaTime { h: 0, m: 1, f: 1, t: 2 });
    assert_eq!(t.add_timeslots(4), TdmaTime { h: 0, m: 1, f: 2, t: 1 });
    assert_eq!(t.add_timeslots(72), TdmaTime { h: 0, m: 2, f: 1, t: 1 });
    assert_eq!(t.add_timeslots(4320), TdmaTime { h: 1, m: 1, f: 1, t: 1 });
    assert_eq!(t.add_timeslots(-1), TdmaTime { h: 65535, m: 60, f: 18, t: 4 });
}

#[test]
fn differences_undo_additions() {
    let t = TdmaTime { h: 3, m: 60, f: 18, t: 4 };
    for n in [0, 1, 17, 4237, 100_000] {
        assert_eq!(t.add_timeslots(n).diff(t), n);
        assert_eq!(t.add_timeslots(n).add_timeslots(-n), t);
    }
}

#[test]
fn next_timeslot() {
    let t = TdmaTime { h: 0, m: 1, f: 18, t: 3 };
    assert_eq!(t.forward_to_timeslot(3), t);
    assert_eq!(t.forward_to_timeslot(4), TdmaTime { t: 4, ..t });
    assert_eq!(t.forward_to_timeslot(1), TdmaTime { h: 0, m: 2, f: 1, t: 1 });
}

#[test]
fn timers_run_out() {
    let t = TdmaTime::default().add_timeslots(100);
    assert!(!elapsed(t.add_timeslots(9), t, 10));
    assert!(elapsed(t.add_timeslots(10), t, 10));
    assert!(elapsed(t, t.add_timeslots(1), 10), "a start in the future has run out");
}

#[test]
fn bit_buffers() {
    let mut b = BitBuffer::from_bitstr("10110");
    assert_eq!(b.get_len(), 5);
    assert_eq!(b.peek_bits_startoffset(0, 3), Some(0b101));
    assert_eq!(b.peek_bits_startoffset(3, 3), None);
    assert_eq!(b.peek_bits_startoffset(0, 65), None);
    assert!(b.get_bit(2));
    b.seek(2);
    assert_eq!((b.get_pos(), b.get_len_remaining()), (2, 3));
    let copy = b.duplicate();
    assert_eq!(b.take_remaining(), vec![true, true, false]);
    assert_eq!(copy.get_pos(), 2);
}

#[test]
fn addresses() {
    let ip = Ipv4Addr::new(192, 168, 100, 7);
    assert_eq!(ip.to_bits(), 0xC0A8_6407);
    assert_eq!(Ipv4Addr::from_bits(0xC0A8_6407), ip);
    assert_eq!(ip.octets(), (192, 168, 100, 7));
    assert!(!ip.is_unspecified());
    assert!(Ipv4Addr::new(0, 0, 0, 0).is_unspecified());
    assert_eq!(TetraAddress::issi(5), TetraAddress::new(5, SsiType::Issi));
}

#[test]
fn timeslot_sets() {
    for ts in 1..=4 {
        assert_eq!(TimeslotSet::only(ts).first(), Some(ts));
    }
}
