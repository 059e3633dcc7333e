use bloom_filter_yss::bloom_filter::BitArray;
use bloom_filter_yss::error::BloomFilterError;

#[test]
fn test_bit_array() {
    let mut bit_array = BitArray::new(10);
    bit_array.set(5, true).unwrap();
    bit_array.set(9, true).unwrap();
    println!("{}", bit_array.to_bit_string());
    assert!(bit_array[5]);
    assert!(bit_array[9]);
    assert!(!bit_array[0]);
    bit_array.set(0, true).unwrap();
    bit_array.set(5, false).unwrap();
    println!("{}", bit_array.to_bit_string());
    assert!(bit_array[0]);
    assert!(!bit_array[5]);
}

#[test]
fn bit_array_test_bit_array() {
    let mut bit_array = BitArray::new(10);
    bit_array.set(5, true).unwrap();
    bit_array.set(9, true).unwrap();
    assert_eq!(bit_array.get_bit(5), Ok(true));
    assert_eq!(bit_array.get_bit(9), Ok(true));
    assert_eq!(bit_array.get_bit(0), Ok(false));
    bit_array.set(0, true).unwrap();
    bit_array.set(5, false).unwrap();
    assert_eq!(bit_array.get_bit(0), Ok(true));
    assert_eq!(bit_array.get_bit(5), Ok(false));
}

#[test]
fn test_new_is_zero_filled() {
    let bit_array = BitArray::new(10);
    assert_eq!(bit_array.size(), 10);
    assert_eq!(bit_array.byte_array(), &vec![0u8, 0]);
    for index in 0..10 {
        assert_eq!(bit_array.get_bit(index), Ok(false));
    }
    assert_eq!(BitArray::new(0).byte_array().len(), 0);
    assert_eq!(BitArray::new(8).byte_array().len(), 1);
    assert_eq!(BitArray::new(9).byte_array().len(), 2);
    assert_eq!(BitArray::new(16).byte_array().len(), 2);
}

#[test]
fn test_bits_are_counted_from_the_most_significant() {
    let mut bit_array = BitArray::new(16);
    bit_array.set(0, true).unwrap();
    assert_eq!(bit_array.byte_array(), &vec![0b1000_0000u8, 0]);
    bit_array.set(7, true).unwrap();
    assert_eq!(bit_array.byte_array(), &vec![0b1000_0001u8, 0]);
    bit_array.set(8, true).unwrap();
    assert_eq!(bit_array.byte_array(), &vec![0b1000_0001u8, 0b1000_0000]);
    bit_array.set(0, false).unwrap();
    assert_eq!(bit_array.byte_array(), &vec![0b0000_0001u8, 0b1000_0000]);
}

#[test]
fn test_set_leaves_other_bits() {
    let mut bit_array = BitArray::new(24);
    bit_array.set(3, true).unwrap();
    bit_array.set(11, true).unwrap();
    bit_array.set(12, true).unwrap();
    bit_array.set(11, false).unwrap();
    for index in 0..24 {
        assert_eq!(bit_array.get_bit(index), Ok(index == 3 || index == 12));
    }
}

#[test]
fn test_byte_position() {
    let bit_array = BitArray::new(20);
    assert_eq!(bit_array.get_byte_position(0), Ok((0, 0)));
    assert_eq!(bit_array.get_byte_position(7), Ok((0, 7)));
    assert_eq!(bit_array.get_byte_position(8), Ok((1, 0)));
    assert_eq!(bit_array.get_byte_position(19), Ok((2, 3)));
    assert_eq!(
        bit_array.get_byte_position(20),
        Err(BloomFilterError::IndexOutOfBounds { limit: 20 })
    );
}

#[test]
fn test_out_of_bound_set() {
    let mut bit_array = BitArray::new(10);
    assert_eq!(
        bit_array.set(10, true),
        Err(BloomFilterError::IndexOutOfBounds { limit: 10 })
    );
    assert_eq!(bit_array.byte_array(), &vec![0u8, 0]);
    assert_eq!(bit_array.set(9, true), Ok(()));
}

#[test]
fn test_out_of_bound_get() {
    let bit_array = BitArray::new(5);
    assert_eq!(
        bit_array.get_bit(6),
        Err(BloomFilterError::IndexOutOfBounds { limit: 5 })
    );
    assert_eq!(
        bit_array.get_bit(5),
        Err(BloomFilterError::IndexOutOfBounds { limit: 5 })
    );
    assert_eq!(bit_array.get_bit(4), Ok(false));
}

#[test]
fn test_from_bytes() {
    let bit_array = BitArray::from_bytes(vec![0b0000_0100, 0b0100_0000], 10).unwrap();
    assert_eq!(bit_array.size(), 10);
    assert!(bit_array[5]);
    assert!(bit_array[9]);
    assert!(!bit_array[8]);
    assert!(matches!(
        BitArray::from_bytes(vec![0, 0, 0], 10),
        Err(BloomFilterError::InvalidFormat)
    ));
    assert!(matches!(
        BitArray::from_bytes(vec![0], 10),
        Err(BloomFilterError::InvalidFormat)
    ));
}

#[test]
fn test_bit_string() {
    let mut bit_array = BitArray::new(10);
    assert_eq!(bit_array.to_bit_string(), "0000000000");
    bit_array.set(5, true).unwrap();
    bit_array.set(9, true).unwrap();
    assert_eq!(bit_array.to_bit_string(), "0000010001");
    assert_eq!(BitArray::new(0).to_bit_string(), "");
}
