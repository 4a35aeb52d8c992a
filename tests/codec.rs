use btmigrate::error::MigrateError;
use btmigrate::mac::{format_mac, format_mac_win, parse_mac_win, read_mac};

#[test]
fn read_mac_parses_colon_form() {
    assert_eq!(read_mac("aa:bb:cc:dd:ee:01"), Ok(vec![0xaa, 0xbb, 0xcc, 0xdd, 0xee, 0x01]));
    assert_eq!(read_mac("AA:0b:Cc:00:ff:10"), Ok(vec![0xaa, 0x0b, 0xcc, 0x00, 0xff, 0x10]));
}

#[test]
fn read_mac_rejects_wrong_token_count() {
    assert_eq!(read_mac("aa:bb:cc:dd:ee"), Err(MigrateError::InvalidAddress));
    assert_eq!(read_mac("aa:bb:cc:dd:ee:ff:00"), Err(MigrateError::InvalidAddress));
    assert_eq!(read_mac(""), Err(MigrateError::InvalidAddress));
}

#[test]
fn read_mac_rejects_bad_tokens() {
    assert_eq!(read_mac("aa:bb:cc:dd:ee:fg"), Err(MigrateError::InvalidAddress));
    assert_eq!(read_mac("aa-bb-cc-dd-ee-ff"), Err(MigrateError::InvalidAddress));
    assert_eq!(read_mac("a:b:c:d:e:f"), Err(MigrateError::InvalidAddress));
    assert_eq!(read_mac("aa:bb:cc:dd:eee:f"), Err(MigrateError::InvalidAddress));
}

#[test]
fn format_mac_is_lower_case_and_padded() {
    assert_eq!(format_mac(&[0xaa, 0xbb, 0xcc, 0xdd, 0xee, 0x01]), "aa:bb:cc:dd:ee:01");
    assert_eq!(format_mac(&[0, 1, 2, 0x0a, 0xb0, 0xff]), "00:01:02:0a:b0:ff");
    assert_eq!(format_mac(&[]), "");
    assert_eq!(format_mac(&[7]), "07");
}

#[test]
fn format_mac_win_pads_to_twelve_digits() {
    let s = format_mac_win(&[0, 0, 0, 0, 0, 1]).unwrap();
    assert_eq!(s, "000000000001");
    assert_eq!(s.len(), 12);
    assert_eq!(format_mac_win(&[0x11, 0x22, 0x33, 0x44, 0x55, 0x66]).unwrap(), "112233445566");
    assert_eq!(format_mac_win(&[0, 0, 0, 0, 0, 0]).unwrap(), "000000000000");
}

#[test]
fn format_mac_win_rejects_wrong_length() {
    assert_eq!(format_mac_win(&[1, 2, 3]), Err(MigrateError::InvalidAddress));
    assert_eq!(format_mac_win(&[1, 2, 3, 4, 5, 6, 7]), Err(MigrateError::InvalidAddress));
}

#[test]
fn parse_mac_win_reads_compact_form() {
    assert_eq!(parse_mac_win("112233445566"), Ok(vec![0x11, 0x22, 0x33, 0x44, 0x55, 0x66]));
    assert_eq!(parse_mac_win("00000000000A"), Ok(vec![0, 0, 0, 0, 0, 0x0a]));
    assert_eq!(parse_mac_win("MasterIRK"), Err(MigrateError::InvalidAddress));
    assert_eq!(parse_mac_win("1122334455"), Err(MigrateError::InvalidAddress));
    assert_eq!(parse_mac_win("11223344556"), Err(MigrateError::InvalidAddress));
    assert_eq!(parse_mac_win("11223344556g"), Err(MigrateError::InvalidAddress));
}

#[test]
fn round_trips_on_concrete_addresses() {
    let addrs: Vec<Vec<u8>> = vec![
        vec![0, 0, 0, 0, 0, 0],
        vec![0xff, 0xff, 0xff, 0xff, 0xff, 0xff],
        vec![0x00, 0x1a, 0x7d, 0xda, 0x71, 0x13],
        vec![0xaa, 0xbb, 0xcc, 0xdd, 0xee, 0x01],
    ];
    for a in addrs {
        assert_eq!(read_mac(&format_mac(&a)).unwrap(), a);
        assert_eq!(parse_mac_win(&format_mac_win(&a).unwrap()).unwrap(), a);
    }
}

#[test]
fn compact_form_keeps_leading_zeros() {
    let s = format_mac_win(&[0x00, 0x00, 0x0a, 0x00, 0x00, 0x0b]).unwrap();
    assert_eq!(s, "00000a00000b");
    assert_eq!(s.len(), 12);
}
