use dmkg::parse::{find, read_number, split, trim};
use dmkg::text::{dec, hexs, human_bytes, join};

#[test]
fn decimals() {
    assert_eq!(dec(0), "0");
    assert_eq!(dec(1204), "1204");
    assert_eq!(dec(usize::MAX), usize::MAX.to_string());
}

#[test]
fn encodings_for_display() {
    assert_eq!(hexs(&vec![]), "0x (0 B)");
    assert_eq!(hexs(&vec![0x0a, 0xff]), "0x0aff (2 B)");
    assert_eq!(hexs(&vec![1, 0, 0, 0]), "0x01000000 (4 B)");
    let twelve: Vec<u8> = (0..12).collect();
    assert_eq!(hexs(&twelve), "0x000102030405060708090a0b (12 B)");
    let thirteen: Vec<u8> = (0..13).collect();
    assert_eq!(hexs(&thirteen), "0x0001020304050607…090a0b0c (13 B)");
    let more: Vec<u8> = (0..48).collect();
    assert_eq!(hexs(&more), "0x0001020304050607…2c2d2e2f (48 B)");
}

#[test]
fn byte_counts_as_floats_print_them() {
    for n in (0..1024).chain(1024..20000).chain((1..400).map(|k| k * 76543)) {
        let expected = if n < 1024 {
            format!("{} B", n)
        } else {
            format!("{:.1} KiB", n as f64 / 1024.0)
        };
        assert_eq!(human_bytes(n), expected);
    }
}

#[test]
fn joined_texts() {
    let parts = vec!["a".to_string(), "b".to_string(), "c".to_string()];
    assert_eq!(join(&parts, ", "), "a, b, c");
    assert_eq!(join(&vec![], ", "), "");
}

#[test]
fn pieces_as_std_gives_them() {
    for s in ["", " a ", "a,b,,c", ",", "\u{a0}x\u{3000}", " 1:z , 4:xy"] {
        assert_eq!(trim(s), s.trim());
        let expected: Vec<String> = s.split(',').map(|p| p.to_string()).collect();
        assert_eq!(split(s, ','), expected);
    }
    assert_eq!(find("id:layer", ':'), 2);
    assert_eq!(find("none", ':'), 4);
}

#[test]
fn numbers_as_std_reads_them() {
    for s in ["0", "42", "+7", "-1", "", "+", "12a", " 1", "18446744073709551615", "18446744073709551616", "007"] {
        assert_eq!(read_number(s, u64::MAX), s.parse::<u64>().ok());
    }
    assert_eq!(read_number("300", 255), None);
}
