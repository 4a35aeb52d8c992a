use btmigrate::cli::{exec_cli, unsupported_cmd, Commands, Platform};
use btmigrate::error::MigrateError;
use btmigrate::store::{bt_reg_key_path, get_device_info_reg_key_path, get_device_name, BtStore, RegNode, RegType, RegValue};
use btmigrate::util::vec_take;

#[test]
fn commands_run_on_their_platform() {
    assert_eq!(exec_cli(&Commands::Dump, Platform::Unix), Ok(()));
    assert_eq!(exec_cli(&Commands::Dump, Platform::Windows), Err(MigrateError::UnsupportedCommand));
    assert_eq!(exec_cli(&Commands::List, Platform::Windows), Ok(()));
    assert_eq!(exec_cli(&Commands::List, Platform::Unix), Ok(()));
    let apply = Commands::Apply { adapter: "aa:bb:cc:dd:ee:01".to_string(), device: "11:22:33:44:55:66".to_string() };
    assert_eq!(exec_cli(&apply, Platform::Windows), Ok(()));
    assert_eq!(exec_cli(&apply, Platform::Unix), Err(MigrateError::UnsupportedCommand));
    assert_eq!(unsupported_cmd(), Err(MigrateError::UnsupportedCommand));
}

#[test]
fn registry_paths() {
    assert_eq!(
        get_device_info_reg_key_path(&[0, 1, 2, 3, 4, 5]).unwrap(),
        "SYSTEM\\CurrentControlSet\\Services\\BTHPORT\\Parameters\\Devices\\000102030405"
    );
    assert_eq!(
        bt_reg_key_path(&[0xaa, 0xbb, 0xcc, 0xdd, 0xee, 0x01], None).unwrap(),
        "SYSTEM\\CurrentControlSet\\Services\\BTHPORT\\Parameters\\Keys\\aabbccddee01"
    );
    assert_eq!(
        bt_reg_key_path(&[0xaa, 0xbb, 0xcc, 0xdd, 0xee, 0x01], Some(&[0, 0, 0, 0, 0, 1])).unwrap(),
        "SYSTEM\\CurrentControlSet\\Services\\BTHPORT\\Parameters\\Keys\\aabbccddee01\\000000000001"
    );
    assert_eq!(get_device_info_reg_key_path(&[1, 2]), Err(MigrateError::InvalidAddress));
    assert_eq!(bt_reg_key_path(&[1, 2, 3, 4, 5, 6], Some(&[1])), Err(MigrateError::InvalidAddress));
}

#[test]
fn vec_take_picks_one_item() {
    assert_eq!(vec_take(vec![10, 20, 30], 1), Some(20));
    assert_eq!(vec_take(vec![10, 20, 30], 0), Some(10));
    assert_eq!(vec_take(vec![10, 20, 30], 3), None);
    assert_eq!(vec_take(Vec::<u8>::new(), 0), None);
}

fn info_store(name_value: RegValue) -> BtStore {
    BtStore {
        adapters: vec![],
        device_info: vec![("112233445566".to_string(), RegNode { values: vec![("Name".to_string(), name_value)] })],
    }
}

#[test]
fn device_names_are_read_as_utf8() {
    let dev = [0x11, 0x22, 0x33, 0x44, 0x55, 0x66];
    let ok = info_store(RegValue { vtype: RegType::Binary, bytes: "Kopfhörer".as_bytes().to_vec() });
    assert_eq!(get_device_name(&ok, &dev), Ok("Kopfhörer".to_string()));
    let bad = info_store(RegValue { vtype: RegType::Binary, bytes: vec![0xff, 0xfe] });
    assert_eq!(get_device_name(&bad, &dev), Err(MigrateError::MalformedRecord { entry: "112233445566".to_string() }));
    let wrong_type = info_store(RegValue { vtype: RegType::Dword, bytes: vec![1, 0, 0, 0] });
    assert_eq!(get_device_name(&wrong_type, &dev), Err(MigrateError::UnexpectedExistingState));
    assert_eq!(get_device_name(&ok, &[1, 2, 3, 4, 5, 6]), Err(MigrateError::NotFound));
}
