use gateway::per::{Per, BIT_C, PER_C, PER_D, PER_R, PER_U};

fn words(ws: &[&str]) -> Vec<String> {
    ws.iter().map(|w| w.to_string()).collect()
}

#[test]
fn flags_imply_read() {
    for f in [PER_C, PER_U, PER_D] {
        assert!(Per::from_bits(f).contains(&Per::from_bits(PER_R)));
    }
    assert!(!Per::from_bits(PER_R).contains(&Per::from_bits(PER_C)));
    assert!(Per::empty().contains(&Per::empty()));
}

#[test]
fn letters_hide_read_behind_other_letters() {
    assert_eq!(Per::from_bits(PER_R).letters(), vec!['r']);
    assert_eq!(Per::from_bits(PER_C).letters(), vec!['c']);
    assert_eq!(Per::from_bits(PER_U | PER_D).letters(), vec!['u', 'd']);
    assert_eq!(Per::from_bits(0b1111).letters(), vec!['c', 'u', 'd']);
    assert!(Per::empty().letters().is_empty());
}

#[test]
fn letters_read_back() {
    assert_eq!(Per::from_letters(&words(&["c", "r"])).bits(), 0b0011);
    assert_eq!(Per::from_letters(&words(&["u"])).bits(), 0b0100);
    assert_eq!(Per::from_letters(&words(&["d", "x", "rr", ""])).bits(), 0b1000);
    assert_eq!(Per::from_letters(&words(&[])).bits(), 0);
    assert_eq!(Per::from_letters(&words(&["r", "r"])).bits(), PER_R);
}

#[test]
fn letters_round_trip_when_read_stands_alone() {
    for bits in [0u8, PER_R, BIT_C, 0b0101, 0b1101, 0b1000] {
        let p = Per::from_bits(bits);
        let ws: Vec<String> = p.letters().iter().map(|c| c.to_string()).collect();
        assert_eq!(Per::from_letters(&ws).bits(), bits);
    }
    // the create flag carries read, and loses it on the way
    let ws: Vec<String> = Per::from_bits(PER_C).letters().iter().map(|c| c.to_string()).collect();
    assert_eq!(Per::from_letters(&ws).bits(), BIT_C);
}

#[test]
fn letters_read_back_without_a_hidden_read_bit() {
    for bits in 0u8..=255 {
        let ws: Vec<String> = Per::from_bits(bits).letters().iter().map(|c| c.to_string()).collect();
        let back = Per::from_letters(&ws).bits();
        let expected = if bits & 0b1101 != 0 { bits & 0b1101 } else { bits & 0b0010 };
        assert_eq!(back, expected, "bits {:#06b}", bits);
        assert_eq!(Per::from_bits(back).letters(), Per::from_bits(bits).letters());
    }
    assert_eq!(
        Per::from_letters(&Per::from_bits(PER_C).letters().iter().map(|c| c.to_string()).collect()).bits(),
        0b0001
    );
}

#[test]
fn bits_above_the_flags_are_dropped() {
    assert_eq!(Per::from_bits(0xF3).bits(), 0b0011);
    assert_eq!(Per::from_bits(0x10).bits(), 0);
    assert_eq!(Per::empty().bits(), 0);
}
