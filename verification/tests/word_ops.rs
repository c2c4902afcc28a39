use sha1sum::Word;

#[test]
fn add_wraps_modulo_two_to_the_32() {
    assert_eq!(Word(0xFFFF_FFFF).add(Word(1)), Word(0));
    assert_eq!(Word(0xFFFF_FFFF).add(Word(0xFFFF_FFFF)), Word(0xFFFF_FFFE));
    assert_eq!(Word(0x8000_0000).add(Word(0x8000_0000)), Word(0));
    assert_eq!(Word(1).add(Word(2)), Word(3));
    assert_eq!(Word(0).add(Word(0)), Word(0));
    assert_eq!(Word(0x67452301).add(Word(0xEFCDAB89)), Word(0x5712CE8A));
}

#[test]
fn add_operator_and_add_assign_wrap() {
    assert_eq!(Word(0xFFFF_FFF0) + Word(0x20), Word(0x10));
    let mut w = Word(0xFFFF_FFFF);
    w += Word(2);
    assert_eq!(w, Word(1));
}

#[test]
fn rotate_left_is_circular() {
    assert_eq!(Word(0x8000_0000).rotate_left(1), Word(1));
    assert_eq!(Word(0x1234_5678).rotate_left(4), Word(0x2345_6781));
    assert_eq!(Word(0x1234_5678).rotate_left(5), Word(0x468A_CF02));
    assert_eq!(Word(0x1234_5678).rotate_left(30), Word(0x048D_159E));
    assert_eq!(Word(0x1234_5678).rotate_left(31), Word(0x091A_2B3C));
    assert_eq!(Word(0x1234_5678).rotate_left(0), Word(0x1234_5678));
}

#[test]
fn rotate_left_agrees_with_the_primitive_rotation() {
    let values = [0u32, 1, 0x8000_0000, 0xFFFF_FFFF, 0x1234_5678, 0xDEAD_BEEF];
    for v in values {
        for n in 0..70u32 {
            assert_eq!(Word(v).rotate_left(n), Word(v.rotate_left(n)), "{:#x} by {}", v, n);
        }
    }
}

#[test]
fn bitwise_methods() {
    let a = Word(0b1100);
    let b = Word(0b1010);
    assert_eq!(a.and(b), Word(0b1000));
    assert_eq!(a.or(b), Word(0b1110));
    assert_eq!(a.xor(b), Word(0b0110));
    assert_eq!(Word(0).not(), Word(0xFFFF_FFFF));
    assert_eq!(Word(0xF0F0_F0F0).not(), Word(0x0F0F_0F0F));
}

#[test]
fn bitwise_operators() {
    let a = Word(0xFF00_FF00);
    let b = Word(0x0FF0_0FF0);
    assert_eq!(a & b, Word(0x0F00_0F00));
    assert_eq!(a | b, Word(0xFFF0_FFF0));
    assert_eq!(a ^ b, Word(0xF0F0_F0F0));
    assert_eq!(!a, Word(0x00FF_00FF));
}
