use btmigrate::apply::{apply_ble, apply_ble_ltk, apply_device, apply_regular, plan_apply};
use btmigrate::error::MigrateError;
use btmigrate::extract::dump_all;
use btmigrate::list::list_text;
use btmigrate::model::{find_device, BLEDeviceCreds, DeviceCreds, LongTermKey, RegularDeviceCreds};
use btmigrate::reconcile::{check_or_suggest_addr_with_reg, select_candidate, Suggestion};
use btmigrate::store::{AdapterNode, BtStore, RegNode, RegType, RegValue};

const ADAPTER: [u8; 6] = [0xaa, 0xbb, 0xcc, 0xdd, 0xee, 0x01];
const DEVICE: [u8; 6] = [0x11, 0x22, 0x33, 0x44, 0x55, 0x66];
const BLE_OLD: [u8; 6] = [0xa0, 0xb1, 0xc2, 0x00, 0x00, 0x01];
const BLE_NEW: [u8; 6] = [0xa0, 0xb1, 0xc2, 0x99, 0x88, 0x77];

fn v(t: RegType, b: &[u8]) -> RegValue {
    RegValue { vtype: t, bytes: b.to_vec() }
}

fn named(name: &str) -> RegNode {
    RegNode { values: vec![("Name".to_string(), v(RegType::Binary, name.as_bytes()))] }
}

fn ble_node() -> RegNode {
    RegNode {
        values: vec![
            ("LTK".to_string(), v(RegType::Binary, &[9; 16])),
            ("KeyLength".to_string(), v(RegType::Dword, &[16, 0, 0, 0])),
            ("ERand".to_string(), v(RegType::Qword, &[1, 2, 3, 4, 5, 6, 7, 8])),
            ("EDIV".to_string(), v(RegType::Dword, &[1, 1, 0, 0])),
            ("IRK".to_string(), v(RegType::Binary, &[7; 16])),
            ("Address".to_string(), v(RegType::Qword, &[0x01, 0x00, 0x00, 0xc2, 0xb1, 0xa0, 0, 0])),
        ],
    }
}

fn store() -> BtStore {
    BtStore {
        adapters: vec![(
            "aabbccddee01".to_string(),
            AdapterNode {
                values: vec![
                    ("MasterIRK".to_string(), v(RegType::Binary, &[1; 16])),
                    ("112233445566".to_string(), v(RegType::Binary, &[0xab; 16])),
                ],
                devices: vec![("a0b1c2000001".to_string(), ble_node())],
            },
        )],
        device_info: vec![("112233445566".to_string(), named("Headset")), ("a0b1c2000001".to_string(), named("Mouse"))],
    }
}

fn adapter_value(s: &BtStore, name: &str) -> Option<RegValue> {
    let node = &s.adapters.iter().rev().find(|e| e.0 == "aabbccddee01")?.1;
    node.values.iter().rev().find(|e| e.0 == name).map(|e| RegValue { vtype: e.1.vtype, bytes: e.1.bytes.clone() })
}

fn device_value(s: &BtStore, dev: &str, name: &str) -> Option<RegValue> {
    let node = &s.adapters.iter().rev().find(|e| e.0 == "aabbccddee01")?.1;
    let d = &node.devices.iter().rev().find(|e| e.0 == dev)?.1;
    d.values.iter().rev().find(|e| e.0 == name).map(|e| RegValue { vtype: e.1.vtype, bytes: e.1.bytes.clone() })
}

fn has_info(s: &BtStore, dev: &str) -> bool {
    s.device_info.iter().any(|e| e.0 == dev)
}

fn ltk(rand: u64) -> LongTermKey {
    LongTermKey { key: vec![0x5a; 16], enc_size: 16, ediv: 0x1234, rand }
}

fn ble(long: Option<LongTermKey>, peripheral: Option<LongTermKey>) -> DeviceCreds {
    DeviceCreds::BLE(BLEDeviceCreds { identity_resolving_key: vec![0x3c; 16], long_term_key: long, peripheral_long_term_key: peripheral })
}

#[test]
fn regular_key_overwrites_existing_value() {
    let mut s = store();
    let creds = DeviceCreds::Regular(RegularDeviceCreds { link_key: vec![0; 16] });
    assert_eq!(apply_device(&mut s, &creds, &ADAPTER, &DEVICE, &DEVICE), Ok(()));
    assert_eq!(adapter_value(&s, "112233445566"), Some(v(RegType::Binary, &[0; 16])));
    assert_eq!(adapter_value(&s, "MasterIRK"), Some(v(RegType::Binary, &[1; 16])));
}

#[test]
fn end_to_end_regular_scenario() {
    let info = "[General]\nName=Headset\n\n[LinkKey]\nKey=00000000000000000000000000000000\nType=4\n";
    let entries = vec![("aa:bb:cc:dd:ee:01".to_string(), vec![("11:22:33:44:55:66".to_string(), Some(info.as_bytes().to_vec()))])];
    let dump = dump_all(&entries).unwrap();
    let dev = find_device(&dump, &ADAPTER, &DEVICE).unwrap();
    let mut s = store();
    let local = match check_or_suggest_addr_with_reg(&s, &ADAPTER, &DEVICE, "Headset", false).unwrap() {
        Suggestion::Paired(a) => a,
        Suggestion::Similar(_) => panic!("expected an exact match"),
    };
    assert_eq!(apply_device(&mut s, &dev.creds, &ADAPTER, &local, &DEVICE), Ok(()));
    assert_eq!(adapter_value(&s, "112233445566"), Some(v(RegType::Binary, &[0; 16])));
    assert_eq!(list_text(&dump), "ADAPTERS:\naa:bb:cc:dd:ee:01 =>\n\t11:22:33:44:55:66 => Headset\n");
}

#[test]
fn end_to_end_ble_relocation_scenario() {
    let mut s = store();
    let cands = match check_or_suggest_addr_with_reg(&s, &ADAPTER, &BLE_NEW, "Mouse", true).unwrap() {
        Suggestion::Similar(c) => c,
        Suggestion::Paired(_) => panic!("target is not paired"),
    };
    assert_eq!(cands, vec![(BLE_OLD.to_vec(), "Mouse".to_string())]);
    let local = select_candidate(cands, "1\n").unwrap();
    assert_eq!(local, BLE_OLD.to_vec());
    let creds = ble(None, Some(ltk(0x0102030405060708)));
    assert_eq!(apply_device(&mut s, &creds, &ADAPTER, &local, &BLE_NEW), Ok(()));
    assert_eq!(device_value(&s, "a0b1c2998877", "Address"), Some(v(RegType::Qword, &[0x77, 0x88, 0x99, 0xc2, 0xb1, 0xa0, 0, 0])));
    assert_eq!(device_value(&s, "a0b1c2998877", "IRK"), Some(v(RegType::Binary, &[0x3c; 16])));
    assert_eq!(device_value(&s, "a0b1c2998877", "LTK"), Some(v(RegType::Binary, &[0x5a; 16])));
    assert_eq!(device_value(&s, "a0b1c2998877", "EDIV"), Some(v(RegType::Dword, &[0x34, 0x12, 0, 0])));
    assert_eq!(device_value(&s, "a0b1c2998877", "ERand"), Some(v(RegType::Qword, &[8, 7, 6, 5, 4, 3, 2, 1])));
    assert_eq!(device_value(&s, "a0b1c2998877", "KeyLength"), Some(v(RegType::Dword, &[16, 0, 0, 0])));
    assert_eq!(device_value(&s, "a0b1c2000001", "IRK"), None);
    assert!(has_info(&s, "a0b1c2998877"));
    assert!(!has_info(&s, "a0b1c2000001"));
}

#[test]
fn classic_relocation_moves_key_and_info() {
    let mut s = store();
    let creds = DeviceCreds::Regular(RegularDeviceCreds { link_key: vec![0x42; 16] });
    let target = [0x11, 0x22, 0x33, 0x00, 0x00, 0x09];
    assert_eq!(apply_device(&mut s, &creds, &ADAPTER, &DEVICE, &target), Ok(()));
    assert_eq!(adapter_value(&s, "112233000009"), Some(v(RegType::Binary, &[0x42; 16])));
    assert_eq!(adapter_value(&s, "112233445566"), None);
    assert!(has_info(&s, "112233000009"));
    assert!(!has_info(&s, "112233445566"));
}

#[test]
fn both_long_term_keys_are_ambiguous() {
    let mut s = store();
    let creds = ble(Some(ltk(1)), Some(ltk(2)));
    assert_eq!(apply_device(&mut s, &creds, &ADAPTER, &BLE_OLD, &BLE_OLD), Err(MigrateError::AmbiguousInvariantViolation));
    assert_eq!(s, store());
}

#[test]
fn no_long_term_key_is_ambiguous() {
    let mut s = store();
    let creds = ble(None, None);
    assert_eq!(apply_device(&mut s, &creds, &ADAPTER, &BLE_OLD, &BLE_NEW), Err(MigrateError::AmbiguousInvariantViolation));
    assert_eq!(s, store());
}

#[test]
fn missing_value_leaves_store_untouched() {
    let mut s = store();
    s.adapters[0].1.devices[0].1.values.retain(|e| e.0 != "EDIV");
    let before = s.adapters[0].1.devices[0].1.values.len();
    let creds = ble(Some(ltk(3)), None);
    assert_eq!(apply_device(&mut s, &creds, &ADAPTER, &BLE_OLD, &BLE_NEW), Err(MigrateError::UnexpectedExistingState));
    assert_eq!(s.adapters[0].1.devices[0].1.values.len(), before);
    assert_eq!(device_value(&s, "a0b1c2000001", "IRK"), Some(v(RegType::Binary, &[7; 16])));
    assert_eq!(device_value(&s, "a0b1c2000001", "LTK"), Some(v(RegType::Binary, &[9; 16])));
    assert!(has_info(&s, "a0b1c2000001"));
}

#[test]
fn wrong_value_type_leaves_store_untouched() {
    let mut s = store();
    s.adapters[0].1.values[1].1.vtype = RegType::Dword;
    let creds = DeviceCreds::Regular(RegularDeviceCreds { link_key: vec![0; 16] });
    let mut expected = store();
    expected.adapters[0].1.values[1].1.vtype = RegType::Dword;
    assert_eq!(apply_device(&mut s, &creds, &ADAPTER, &DEVICE, &DEVICE), Err(MigrateError::UnexpectedExistingState));
    assert_eq!(s, expected);
}

#[test]
fn absent_nodes_are_not_found() {
    let mut s = store();
    let creds = ble(Some(ltk(3)), None);
    assert_eq!(apply_device(&mut s, &creds, &ADAPTER, &BLE_NEW, &BLE_NEW), Err(MigrateError::NotFound));
    assert_eq!(apply_device(&mut s, &creds, &[1, 2, 3, 4, 5, 6], &BLE_OLD, &BLE_OLD), Err(MigrateError::NotFound));
    let mut no_info = store();
    no_info.device_info.clear();
    let regular = DeviceCreds::Regular(RegularDeviceCreds { link_key: vec![0; 16] });
    assert_eq!(apply_device(&mut no_info, &regular, &ADAPTER, &DEVICE, &BLE_NEW), Err(MigrateError::NotFound));
    assert_eq!(s, store());
}

#[test]
fn short_address_is_invalid() {
    let mut s = store();
    let creds = DeviceCreds::Regular(RegularDeviceCreds { link_key: vec![0; 16] });
    assert_eq!(apply_device(&mut s, &creds, &ADAPTER[..5], &DEVICE, &DEVICE), Err(MigrateError::InvalidAddress));
    assert_eq!(s, store());
}

#[test]
fn plan_lists_the_writes() {
    let s = store();
    let creds = ble(Some(ltk(0x0102030405060708)), None);
    let p = plan_apply(&s, &creds, &ADAPTER, &BLE_OLD, &BLE_NEW).unwrap();
    assert_eq!(p.adapter, "aabbccddee01");
    assert_eq!(p.device_node, Some("a0b1c2000001".to_string()));
    let names: Vec<&str> = p.writes.iter().map(|w| w.0.as_str()).collect();
    assert_eq!(names, vec!["IRK", "LTK", "EDIV", "ERand", "KeyLength"]);
    assert_eq!(p.writes[2].1, v(RegType::Dword, &[0x34, 0x12, 0, 0]));
    assert_eq!(p.relocation, Some(("a0b1c2000001".to_string(), "a0b1c2998877".to_string())));
    assert_eq!(p.address, Some(v(RegType::Qword, &[0x77, 0x88, 0x99, 0xc2, 0xb1, 0xa0, 0, 0])));
    let regular = DeviceCreds::Regular(RegularDeviceCreds { link_key: vec![5; 16] });
    let q = plan_apply(&s, &regular, &ADAPTER, &DEVICE, &DEVICE).unwrap();
    assert_eq!(q.device_node, None);
    assert_eq!(q.writes, vec![("112233445566".to_string(), v(RegType::Binary, &[5; 16]))]);
    assert_eq!(q.relocation, None);
    assert_eq!(plan_apply(&s, &ble(None, None), &ADAPTER, &BLE_OLD, &BLE_OLD).err(), Some(MigrateError::AmbiguousInvariantViolation));
}

#[test]
fn primitives_refuse_before_writing() {
    let akey = "aabbccddee01".to_string();
    let mut s = store();
    s.adapters[0].1.values.retain(|e| e.0 != "112233445566");
    let mut expected = store();
    expected.adapters[0].1.values.retain(|e| e.0 != "112233445566");
    let regular = RegularDeviceCreds { link_key: vec![0; 16] };
    assert_eq!(apply_regular(&mut s, &regular, &akey, &"112233445566".to_string()), Err(MigrateError::UnexpectedExistingState));
    assert_eq!(s, expected);

    let lkey = "a0b1c2000001".to_string();
    let mut s = store();
    let both = BLEDeviceCreds { identity_resolving_key: vec![1; 16], long_term_key: Some(ltk(1)), peripheral_long_term_key: Some(ltk(2)) };
    assert_eq!(apply_ble(&mut s, &both, &akey, &lkey), Err(MigrateError::AmbiguousInvariantViolation));
    let neither = BLEDeviceCreds { identity_resolving_key: vec![1; 16], long_term_key: None, peripheral_long_term_key: None };
    assert_eq!(apply_ble(&mut s, &neither, &akey, &lkey), Err(MigrateError::AmbiguousInvariantViolation));
    assert_eq!(s, store());

    let mut s = store();
    s.adapters[0].1.devices[0].1.values.retain(|e| e.0 != "EDIV");
    let mut expected = store();
    expected.adapters[0].1.devices[0].1.values.retain(|e| e.0 != "EDIV");
    assert_eq!(apply_ble_ltk(&mut s, &akey, &lkey, &ltk(3)), Err(MigrateError::UnexpectedExistingState));
    assert_eq!(s, expected);
    let one = BLEDeviceCreds { identity_resolving_key: vec![1; 16], long_term_key: Some(ltk(1)), peripheral_long_term_key: None };
    assert_eq!(apply_ble(&mut s, &one, &akey, &lkey), Err(MigrateError::UnexpectedExistingState));
    assert_eq!(s, expected);

    let mut s = store();
    assert_eq!(apply_ble(&mut s, &one, &akey, &lkey), Ok(()));
    assert_eq!(device_value(&s, "a0b1c2000001", "IRK"), Some(v(RegType::Binary, &[1; 16])));
    assert_eq!(device_value(&s, "a0b1c2000001", "Address"), Some(v(RegType::Qword, &[0x01, 0x00, 0x00, 0xc2, 0xb1, 0xa0, 0, 0])));
}

#[test]
fn relocation_onto_known_info_keeps_one_record() {
    let mut s = store();
    s.device_info.push(("112233000009".to_string(), named("Already here")));
    let creds = DeviceCreds::Regular(RegularDeviceCreds { link_key: vec![0x42; 16] });
    let target = [0x11, 0x22, 0x33, 0x00, 0x00, 0x09];
    assert_eq!(apply_device(&mut s, &creds, &ADAPTER, &DEVICE, &target), Ok(()));
    assert_eq!(s.device_info.iter().filter(|e| e.0 == "112233000009").count(), 1);
    assert_eq!(s.adapters[0].1.values.iter().filter(|e| e.0 == "112233000009").count(), 1);
    let kept = &s.device_info.iter().find(|e| e.0 == "112233000009").unwrap().1;
    assert_eq!(kept.values[0].1.bytes, b"Already here".to_vec());
    assert!(!has_info(&s, "112233445566"));
}
