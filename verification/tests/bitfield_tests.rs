use peerwire::bitfield::Bitfield;

#[test]
fn creation_bitfield() {
    let bf = Bitfield::new(8);
    assert_eq!(bf.num_bits(), 8);
    assert_eq!(bf.as_bytes().len(), 1);

    let bf_from_x = Bitfield::from_bytes(&[0b10010010]);
    assert_eq!(bf_from_x.num_bits(), 8);
    assert_eq!(bf_from_x.as_bytes().len(), 1);

    let bf_from_y = Bitfield::from_bytes(&[0b10010010, 0b10010010]);
    assert_eq!(bf_from_y.num_bits(), 16);
    assert_eq!(bf_from_y.as_bytes().len(), 2);
}

#[test]
fn set_get_bit() {
    let mut bf = Bitfield::from_bytes(&[0b00000000]);
    assert!(!bf.get(0));
    bf.set(0);
    assert!(bf.get(0));
    bf.set(7);
    assert!(bf.get(7));
}

#[test]
fn all_set() {
    let bf1 = Bitfield::from_bytes(&[0b00000000]);
    let bf2 = Bitfield::from_bytes(&[!0u8]);

    assert!(!bf1.all());
    assert!(bf2.all());
}

#[test]
fn new_starts_clear_and_set_touches_one_bit() {
    let mut bf = Bitfield::new(10);
    for i in 0..10 {
        assert!(!bf.get(i));
    }
    bf.set(3);
    for i in 0..10 {
        assert_eq!(bf.get(i), i == 3);
    }
    bf.set(9);
    for i in 0..10 {
        assert_eq!(bf.get(i), i == 3 || i == 9);
    }
}

#[test]
fn all_iff_every_bit() {
    let mut bf = Bitfield::new(9);
    for i in 0..9 {
        assert!(!bf.all());
        bf.set(i);
    }
    assert!(bf.all());

    let full = Bitfield::from_bytes(&[0xFF, 0xFF]);
    assert!(full.all());
    let empty = Bitfield::from_bytes(&[0x00, 0x00]);
    assert!(!empty.all());
}

#[test]
fn bytes_round_trip() {
    let b = [0xA5u8, 0x00, 0xFF, 0x42];
    let bf = Bitfield::from_bytes(&b);
    assert_eq!(bf.as_bytes(), &b);
    assert_eq!(bf.bytes(), 4);

    let single = [0x80u8];
    let bf2 = Bitfield::from_bytes(&single);
    assert_eq!(bf2.as_bytes(), &single);
    assert!(bf2.get(0));
    assert!(!bf2.get(1));
}

#[test]
fn msb_first_addressing() {
    let bf = Bitfield::from_bytes(&[0b10010010]);
    assert!(bf.get(0));
    assert!(!bf.get(1));
    assert!(!bf.get(2));
    assert!(bf.get(3));
    assert!(!bf.get(4));
    assert!(!bf.get(5));
    assert!(bf.get(6));
    assert!(!bf.get(7));
}
