use nandputer::utils::{
    boollist_to_bytes, boollist_to_bytes32, bytes_to_boollist, bytes_to_boollist32,
    bytes_to_boolvec, gen_memaddr, split_u16,
};

#[test]
fn test_bytes_to_boolvec_works() {
    let val = vec![false, true, false, true, true, true, false, true, false, false, false, true, true, false, true, true];
    let val_bytes = [0x5d, 0x1b];
    assert_eq!(bytes_to_boolvec(&val_bytes), val);
}

#[test]
fn test_boollist_to_bytes_works() {
    let mut val = [false, true, false, true, true, true, false, true, false, false, false, true, true, false, true, true];
    val.reverse(); // little endian
    let val_bytes = [0x5d, 0x1b];
    assert_eq!(boollist_to_bytes(&val), val_bytes);
}

#[test]
fn test_bytes_to_boollist32_works() {
    let mut val = [false, false, false, true, false, false, true, false, false, false, true, true, false, true, false, false, false, true, false, true, true, true, false, true, false, false, false, true, true, false, true, true];
    val.reverse();
    let val_bytes = [0x12, 0x34, 0x5d, 0x1b];
    assert_eq!(bytes_to_boollist32(&val_bytes), val);
}

#[test]
fn test_boollist_to_bytes32_works() {
    let mut val = [false, false, false, true, false, false, true, false, false, false, true, true, false, true, false, false, false, true, false, true, true, true, false, true, false, false, false, true, true, false, true, true];
    val.reverse(); // little endian
    let val_bytes = [0x12, 0x34, 0x5d, 0x1b];
    assert_eq!(boollist_to_bytes32(&val), val_bytes);
}

#[test]
fn test_bytes_to_boollist_works() {
    let val_bytes = [0x5d, 0x1b];
    let mut val = [false, true, false, true, true, true, false, true, false, false, false, true, true, false, true, true];
    val.reverse(); // little endian
    assert_eq!(bytes_to_boollist(&val_bytes), val);
}

#[test]
fn test_gen_memaddr_works() {
    let mut output = [false; 16];
    output[10] = true;
    assert_eq!(gen_memaddr(1024), output);
}

#[test]
fn test_split_u16_works() {
    assert_eq!(split_u16(0xdead), [0xde, 0xad]);
}
