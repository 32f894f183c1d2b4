use parity_swap::pdump::{HexDump, HexDumper};

#[test]
fn samples() {
    println!("{}", "Hello".as_bytes().dump());
    println!("{}", "This is a much longer string".as_bytes().dump());
    println!(
        "{}",
        "\x00\x01\x02\x03\x04\x05\x06\x07\x08\x09\x0a\x0b\x0c\x0d\x0e\x0f".as_bytes().dump()
    );
}

#[test]
fn short_line_exact() {
    let s = "Hello".as_bytes().dump();
    let mut expected = String::from("000000  48 65 6c 6c 6f");
    for _ in 0..34 {
        expected.push(' ');
    }
    expected.push_str(" |Hello|\n");
    assert_eq!(s, expected);
}

#[test]
fn full_line_exact() {
    let bytes: Vec<u8> = (0u8..16).collect();
    let s = bytes.dump();
    assert_eq!(
        s,
        "000000  00 01 02 03 04 05 06 07  08 09 0a 0b 0c 0d 0e 0f |................|\n"
    );
}

#[test]
fn two_lines_with_offsets() {
    let bytes: Vec<u8> = b"ABCDEFGHIJKLMNOPQ".to_vec();
    let s = bytes.dump();
    let mut expected = String::from(
        "000000  41 42 43 44 45 46 47 48  49 4a 4b 4c 4d 4e 4f 50 |ABCDEFGHIJKLMNOP|\n",
    );
    expected.push_str("000010  51");
    for _ in 0..46 {
        expected.push(' ');
    }
    expected.push_str(" |Q|\n");
    assert_eq!(s, expected);
}

#[test]
fn prefix_on_every_line() {
    let bytes: Vec<u8> = (0u8..32).collect();
    let s = HexDumper(&bytes).fmt_prefix(">> ");
    for line in s.lines() {
        assert!(line.starts_with(">> "));
    }
    assert_eq!(s.lines().count(), 2);
    assert!(s.contains(">> 000010"));
}

#[test]
fn empty_input_renders_nothing() {
    let s = HexDumper(&[]).render();
    assert_eq!(s, "");
}

#[test]
fn nonprintable_bytes_show_as_dots() {
    let bytes: Vec<u8> = vec![0x1F, 0x20, 0x7E, 0x7F];
    let s = bytes.dump();
    let mut expected = String::from("000000  1f 20 7e 7f");
    for _ in 0..37 {
        expected.push(' ');
    }
    expected.push_str(" |. ~.|\n");
    assert_eq!(s, expected);
}
