use threed2vox::nbtifier::{bytearray_from_varint, varint_from_int, varint_from_intarray};

fn decode(bytes: &[u8]) -> u64 {
    let mut value: u64 = 0;
    let mut shift = 0;
    for byte in bytes {
        value |= ((byte & 127) as u64) << shift;
        shift += 7;
    }
    value
}

#[test]
fn varint_of_small_numbers_is_one_byte() {
    assert_eq!(varint_from_int(0), vec![0u8]);
    assert_eq!(varint_from_int(1), vec![1u8]);
    assert_eq!(varint_from_int(127), vec![127u8]);
}

#[test]
fn varint_continues_with_the_high_bit() {
    assert_eq!(varint_from_int(128), vec![0x80u8, 0x01]);
    assert_eq!(varint_from_int(255), vec![0xffu8, 0x01]);
    assert_eq!(varint_from_int(256), vec![0x80u8, 0x02]);
    assert_eq!(varint_from_int(300), vec![0xacu8, 0x02]);
    assert_eq!(varint_from_int(16383), vec![0xffu8, 0x7f]);
    assert_eq!(varint_from_int(16384), vec![0x80u8, 0x80, 0x01]);
    assert_eq!(varint_from_int(624485), vec![0xe5u8, 0x8e, 0x26]);
    assert_eq!(varint_from_int(u32::MAX), vec![0xffu8, 0xff, 0xff, 0xff, 0x0f]);
}

#[test]
fn varint_reads_back_as_the_number() {
    let samples: [u32; 12] = [0, 1, 2, 127, 128, 129, 255, 256, 16383, 16384, 1 << 28, u32::MAX];
    for n in samples {
        let bytes = varint_from_int(n);
        assert_eq!(decode(&bytes), n as u64);
        let (last, front) = bytes.split_last().unwrap();
        assert!(*last < 128);
        assert!(front.iter().all(|b| *b >= 128));
    }
}

#[test]
fn varint_array_concatenates_in_order() {
    assert_eq!(varint_from_intarray(vec![]), Vec::<u8>::new());
    assert_eq!(varint_from_intarray(vec![0, 1, 1, 0]), vec![0u8, 1, 1, 0]);
    assert_eq!(varint_from_intarray(vec![1, 300, 0, 128]), vec![1u8, 0xac, 0x02, 0, 0x80, 0x01]);
}

#[test]
fn bytes_keep_their_bit_pattern_when_read_as_signed() {
    assert_eq!(bytearray_from_varint(vec![]), Vec::<i8>::new());
    assert_eq!(bytearray_from_varint(vec![0, 1, 127, 128, 129, 255]), vec![0i8, 1, 127, -128, -127, -1]);
    for b in 0..=255u8 {
        assert_eq!(bytearray_from_varint(vec![b]), vec![b as i8]);
    }
}
