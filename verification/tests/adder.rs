use nandputer::adder::{add16, full_adder, hack_alu, half_adder, inc16, riscv_alu, HackCtrl, RISCvCtrl};
use nandputer::gates;
use nandputer::utils;
use nandputer::utils::bytes_to_boollist;

#[test]
fn test_half_adder_works() {
    assert_eq!(half_adder(false, false), (false, false));
    assert_eq!(half_adder(false, true), (true, false));
    assert_eq!(half_adder(true, false), (true, false));
    assert_eq!(half_adder(true, true), (false, true));
}

#[test]
fn test_full_adder_works() {
    assert_eq!(full_adder(false, false, false), (false, false));
    assert_eq!(full_adder(false, false, true), (true, false));
    assert_eq!(full_adder(false, true, false), (true, false));
    assert_eq!(full_adder(false, true, true), (false, true));
    assert_eq!(full_adder(true, false, false), (true, false));
    assert_eq!(full_adder(true, false, true), (false, true));
    assert_eq!(full_adder(true, true, false), (false, true));
    assert_eq!(full_adder(true, true, true), (true, true));
}

#[test]
fn test_add16_works() {
    let val1 = [00, 12];
    let val2 = [0, 13];
    let sum = [0, 25];

    assert_eq!(
        add16(&bytes_to_boollist(&val1), &bytes_to_boollist(&val2)),
        bytes_to_boollist(&sum)
    );
}

#[test]
fn test_inc16_works() {
    let val1 = [00, 12];
    let val2 = [0, 13];

    assert_eq!(inc16(&bytes_to_boollist(&val1)), bytes_to_boollist(&val2));
}

#[test]
fn test_riscv_alu_works() {
    let val1 = bytes_to_boollist(&[00, 12]);
    let val2 = bytes_to_boollist(&[00, 13]);
    let sum = bytes_to_boollist(&[00, 25]);
    let zero = bytes_to_boollist(&[00, 00]);
    let one = bytes_to_boollist(&[00, 1]);
    let neg_one = gates::not16(&zero);

    // 10000 - ADD
    let ctrl = RISCvCtrl::new(true, false, false, false, false);
    let out = riscv_alu(&val1, &val2, &ctrl);
    assert_eq!(utils::boollist_to_bytes(&out), utils::boollist_to_bytes(&sum));

    // 10001 - SUB
    let ctrl = RISCvCtrl::new(true, false, false, false, true);
    let out = riscv_alu(&val1, &val2, &ctrl);
    assert_eq!(utils::boollist_to_bytes(&out), utils::boollist_to_bytes(&neg_one));

    // 11000 - XOR
    let ctrl = RISCvCtrl::new(true, true, false, false, false);
    let out = riscv_alu(&val1, &val2, &ctrl);
    assert_eq!(utils::boollist_to_bytes(&out), utils::boollist_to_bytes(&one));

    // 11100 - OR
    let ctrl = RISCvCtrl::new(true, true, true, false, false);
    let out = riscv_alu(&val1, &val2, &ctrl);
    assert_eq!(utils::boollist_to_bytes(&out), utils::boollist_to_bytes(&val2));

    // 11110 - AND
    let ctrl = RISCvCtrl::new(true, true, true, true, false);
    let out = riscv_alu(&val1, &val2, &ctrl);
    assert_eq!(utils::boollist_to_bytes(&out), utils::boollist_to_bytes(&val1));
}

#[test]
fn test_hack_alu_works() {
    let val1 = bytes_to_boollist(&[00, 12]);
    let val2 = bytes_to_boollist(&[00, 13]);
    let zero = bytes_to_boollist(&[00, 00]);
    let one = bytes_to_boollist(&[00, 1]);
    let neg_one = gates::not16(&zero);

    // 101010: 0
    let ctrl = HackCtrl::new(true, false, true, false, true, false);
    let hackout = hack_alu(&val1, &val2, &ctrl);
    assert_eq!(&hackout.out, &zero);
    assert_eq!(hackout.zr, true);
    assert_eq!(hackout.ng, false);

    // 111111: 1
    let ctrl = HackCtrl::new(true, true, true, true, true, true);
    let hackout = hack_alu(&val1, &val2, &ctrl);
    assert_eq!(&hackout.out, &one);
    assert_eq!(hackout.zr, false);
    assert_eq!(hackout.ng, false);

    // 111010: -1
    let ctrl = HackCtrl::new(true, true, true, false, true, false);
    let hackout = hack_alu(&val1, &val2, &ctrl);
    assert_eq!(&hackout.out, &neg_one);
    assert_eq!(hackout.zr, false);
    assert_eq!(hackout.ng, true);

    // 001100: x
    let ctrl = HackCtrl::new(false, false, true, true, false, false);
    let hackout = hack_alu(&val1, &val2, &ctrl);
    assert_eq!(&hackout.out, &val1);
    assert_eq!(hackout.zr, false);
    assert_eq!(hackout.ng, false);

    // 110000: y
    let ctrl = HackCtrl::new(true, true, false, false, false, false);
    let hackout = hack_alu(&val1, &val2, &ctrl);
    assert_eq!(&hackout.out, &val2);
    assert_eq!(hackout.zr, false);
    assert_eq!(hackout.ng, false);

    // 001101: !x
    let ctrl = HackCtrl::new(false, false, true, true, false, true);
    let hackout = hack_alu(&val1, &val2, &ctrl);
    assert_eq!(&hackout.out, &gates::not16(&val1));
    assert_eq!(hackout.zr, false);
    assert_eq!(hackout.ng, true);

    // 110001: !y
    let ctrl = HackCtrl::new(true, true, false, false, false, true);
    let hackout = hack_alu(&val1, &val2, &ctrl);
    assert_eq!(&hackout.out, &gates::not16(&val2));
    assert_eq!(hackout.zr, false);
    assert_eq!(hackout.ng, true);

    // 001111: -x
    let ctrl = HackCtrl::new(false, false, true, true, true, true);
    let hackout = hack_alu(&val1, &val2, &ctrl);
    assert_eq!(&hackout.out, &inc16(&gates::not16(&val1)));
    assert_eq!(hackout.zr, false);
    assert_eq!(hackout.ng, true);

    // 110011: -y
    let ctrl = HackCtrl::new(true, true, false, false, true, true);
    let hackout = hack_alu(&val1, &val2, &ctrl);
    assert_eq!(&hackout.out, &inc16(&gates::not16(&val2)));
    assert_eq!(hackout.zr, false);
    assert_eq!(hackout.ng, true);

    // 011111: x+1
    let ctrl = HackCtrl::new(false, true, true, true, true, true);
    let hackout = hack_alu(&val1, &val2, &ctrl);
    assert_eq!(&hackout.out, &inc16(&val1));
    assert_eq!(hackout.zr, false);
    assert_eq!(hackout.ng, false);

    // 110111: y+1
    let ctrl = HackCtrl::new(true, true, false, true, true, true);
    let hackout = hack_alu(&val1, &val2, &ctrl);
    assert_eq!(&hackout.out, &inc16(&val2));
    assert_eq!(hackout.zr, false);
    assert_eq!(hackout.ng, false);

    // 001110: x-1
    let ctrl = HackCtrl::new(false, false, true, true, true, false);
    let hackout = hack_alu(&val1, &val2, &ctrl);
    assert_eq!(&hackout.out, &add16(&val1, &neg_one));
    assert_eq!(hackout.zr, false);
    assert_eq!(hackout.ng, false);

    // 110010: y-1
    let ctrl = HackCtrl::new(true, true, false, false, true, false);
    let hackout = hack_alu(&val1, &val2, &ctrl);
    assert_eq!(&hackout.out, &add16(&val2, &neg_one));
    assert_eq!(hackout.zr, false);
    assert_eq!(hackout.ng, false);

    // 000010: x+y
    let ctrl = HackCtrl::new(false, false, false, false, true, false);
    let hackout = hack_alu(&val1, &val2, &ctrl);
    assert_eq!(&hackout.out, &add16(&val1, &val2));
    assert_eq!(hackout.zr, false);
    assert_eq!(hackout.ng, false);

    // 010011: x-y
    let ctrl = HackCtrl::new(false, true, false, false, true, true);
    let hackout = hack_alu(&val1, &val2, &ctrl);
    assert_eq!(&hackout.out, &add16(&val1, &inc16(&gates::not16(&val2))));
    assert_eq!(hackout.zr, false);
    assert_eq!(hackout.ng, true);

    // 000111: y-x
    let ctrl = HackCtrl::new(false, false, false, true, true, true);
    let hackout = hack_alu(&val1, &val2, &ctrl);
    assert_eq!(&hackout.out, &add16(&val2, &inc16(&gates::not16(&val1))));
    assert_eq!(hackout.zr, false);
    assert_eq!(hackout.ng, false);

    // 000000: x&y
    let ctrl = HackCtrl::new(false, false, false, false, false, false);
    let hackout = hack_alu(&val1, &val2, &ctrl);
    assert_eq!(&hackout.out, &gates::and16(&val1, &val2));
    assert_eq!(hackout.zr, false);
    assert_eq!(hackout.ng, false);

    // 010101: x|y
    let ctrl = HackCtrl::new(false, true, false, true, false, true);
    let hackout = hack_alu(&val1, &val2, &ctrl);
    assert_eq!(&hackout.out, &gates::or16(&val1, &val2));
    assert_eq!(hackout.zr, false);
    assert_eq!(hackout.ng, false);
}
