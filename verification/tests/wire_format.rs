use protofish::text::{dotted, join_path, parent_scope, same_name, same_text};
use protofish::wire::{
    read_le, read_varint, to_signed_32, to_signed_64, to_unsigned_32, to_unsigned_64, write_le,
    write_varint, zigzag_from_signed, zigzag_to_signed,
};

fn varint(v: u128) -> Vec<u8> {
    let mut out = vec![0xee];
    write_varint(v, &mut out);
    assert_eq!(out[0], 0xee);
    out[1..].to_vec()
}

fn le(v: u64, width: usize) -> Vec<u8> {
    let mut out = vec![];
    write_le(v, width, &mut out);
    out
}

#[test]
fn varints_are_written_in_shortest_form() {
    assert_eq!(varint(0), vec![0x00]);
    assert_eq!(varint(1), vec![0x01]);
    assert_eq!(varint(127), vec![0x7f]);
    assert_eq!(varint(128), vec![0x80, 0x01]);
    assert_eq!(varint(150), vec![0x96, 0x01]);
    assert_eq!(varint(300), vec![0xac, 0x02]);
    assert_eq!(varint(16383), vec![0xff, 0x7f]);
    assert_eq!(varint(16384), vec![0x80, 0x80, 0x01]);
    assert_eq!(
        varint(u64::MAX as u128),
        vec![0xff, 0xff, 0xff, 0xff, 0xff, 0xff, 0xff, 0xff, 0xff, 0x01]
    );
    assert_eq!(varint(u128::MAX).len(), 19);
    assert_eq!(varint(u128::MAX)[18], 0x03);
}

#[test]
fn varints_are_read_with_their_length() {
    assert_eq!(read_varint(&[]), None);
    assert_eq!(read_varint(&[0x00]), Some((0, 1)));
    assert_eq!(read_varint(&[0x7f, 0xff]), Some((127, 1)));
    assert_eq!(read_varint(&[0x96, 0x01, 0x55]), Some((150, 2)));
    assert_eq!(read_varint(&[0xac, 0x02]), Some((300, 2)));
    assert_eq!(read_varint(&[0x80]), None);
    assert_eq!(read_varint(&[0xff, 0xff, 0xff]), None);
    // Padding groups are read.
    assert_eq!(read_varint(&[0x81, 0x80, 0x00]), Some((1, 3)));
    assert_eq!(
        read_varint(&[0xff, 0xff, 0xff, 0xff, 0xff, 0xff, 0xff, 0xff, 0xff, 0x01]),
        Some((u64::MAX, 10))
    );
    // Ten bytes that do not fit in 64 bits, and more than ten bytes.
    assert_eq!(read_varint(&[0xff, 0xff, 0xff, 0xff, 0xff, 0xff, 0xff, 0xff, 0xff, 0x02]), None);
    assert_eq!(
        read_varint(&[0x80, 0x80, 0x80, 0x80, 0x80, 0x80, 0x80, 0x80, 0x80, 0x80, 0x00]),
        None
    );
    for v in [0u64, 1, 127, 128, 255, 256, 1 << 32, (1 << 63) - 1, 1 << 63, u64::MAX] {
        let bytes = varint(v as u128);
        assert_eq!(read_varint(&bytes), Some((v, bytes.len())));
    }
}

#[test]
fn fixed_width_numbers_are_little_endian() {
    assert_eq!(le(0x0807060504030201, 8), vec![1, 2, 3, 4, 5, 6, 7, 8]);
    assert_eq!(le(0x04030201, 4), vec![1, 2, 3, 4]);
    assert_eq!(le(1, 4), vec![1, 0, 0, 0]);
    assert_eq!(le(0x0102, 1), vec![2]);
    assert_eq!(le(7, 0), Vec::<u8>::new());
    assert_eq!(read_le(&[1, 2, 3, 4, 5, 6, 7, 8, 9], 8), 0x0807060504030201);
    assert_eq!(read_le(&[1, 2, 3, 4, 5], 4), 0x04030201);
    assert_eq!(read_le(&[0xff], 1), 255);
    assert_eq!(read_le(&[0xff], 0), 0);
    assert_eq!(le(1.0f32.to_bits() as u64, 4), 1.0f32.to_le_bytes().to_vec());
    assert_eq!(le(1.2345f64.to_bits(), 8), 1.2345f64.to_le_bytes().to_vec());
}

#[test]
fn signed_numbers_are_twos_complement() {
    assert_eq!(to_signed_64(0), 0);
    assert_eq!(to_signed_64(u64::MAX), -1);
    assert_eq!(to_signed_64(1 << 63), i64::MIN);
    assert_eq!(to_signed_64((1 << 63) - 1), i64::MAX);
    assert_eq!(to_unsigned_64(-1), u64::MAX);
    assert_eq!(to_unsigned_64(i64::MIN), 1 << 63);
    assert_eq!(to_unsigned_64(5), 5);
    assert_eq!(to_signed_32(u32::MAX), -1);
    assert_eq!(to_signed_32(1 << 31), i32::MIN);
    assert_eq!(to_signed_32(7), 7);
    assert_eq!(to_unsigned_32(-2), u32::MAX - 1);
    assert_eq!(to_unsigned_32(i32::MIN), 1 << 31);
    for v in [i64::MIN, -2, -1, 0, 1, 2, i64::MAX] {
        assert_eq!(to_signed_64(to_unsigned_64(v)), v);
        assert_eq!(to_unsigned_64(v), v as u64);
    }
}

#[test]
fn zigzag_interleaves_the_signs() {
    let pairs: [(i64, u64); 9] = [
        (0, 0),
        (-1, 1),
        (1, 2),
        (-2, 3),
        (2, 4),
        (2147483647, 4294967294),
        (-2147483648, 4294967295),
        (i64::MAX, u64::MAX - 1),
        (i64::MIN, u64::MAX),
    ];
    for (signed, unsigned) in pairs {
        assert_eq!(zigzag_from_signed(signed), unsigned);
        assert_eq!(zigzag_to_signed(unsigned), signed);
    }
}

#[test]
fn names_are_joined_and_split_at_dots() {
    assert_eq!(dotted("a.b", "c"), "a.b.c");
    assert_eq!(dotted("", "c"), ".c");
    assert_eq!(join_path("a.b", "c"), "a.b.c");
    assert_eq!(join_path("", "c"), "c");
    assert_eq!(parent_scope("a.b.c"), "a.b");
    assert_eq!(parent_scope("a"), "");
    assert_eq!(parent_scope(""), "");
    assert_eq!(parent_scope("a."), "a");
    assert_eq!(parent_scope(".a"), "");
    assert_eq!(parent_scope("päckage.tÿpe"), "päckage");
    assert!(same_text("äbc", "äbc"));
    assert!(!same_text("abc", "abd"));
    assert!(!same_text("abc", "ab"));
    assert!(same_text("", ""));
    assert!(same_name(&None, &None));
    assert!(same_name(&Some("a".to_string()), &Some("a".to_string())));
    assert!(!same_name(&Some("a".to_string()), &None));
    assert!(!same_name(&Some("a".to_string()), &Some("b".to_string())));
}
