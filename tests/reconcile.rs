use btmigrate::error::MigrateError;
use btmigrate::reconcile::{check_or_suggest_addr, check_or_suggest_addr_with_reg, choose_candidate, select_candidate, Suggestion};
use btmigrate::store::{AdapterNode, BtStore, RegNode, RegType, RegValue};

fn v(t: RegType, b: &[u8]) -> RegValue {
    RegValue { vtype: t, bytes: b.to_vec() }
}

fn named(name: &str) -> RegNode {
    RegNode { values: vec![("Name".to_string(), v(RegType::Binary, name.as_bytes()))] }
}

fn classic_store() -> BtStore {
    BtStore {
        adapters: vec![(
            "aabbccddee01".to_string(),
            AdapterNode {
                values: vec![
                    ("MasterIRK".to_string(), v(RegType::Binary, &[1; 16])),
                    ("112233445566".to_string(), v(RegType::Binary, &[0xab; 16])),
                    ("112233000001".to_string(), v(RegType::Binary, &[0xcd; 16])),
                    ("998877000002".to_string(), v(RegType::Binary, &[0xef; 16])),
                ],
                devices: vec![],
            },
        )],
        device_info: vec![
            ("112233445566".to_string(), named("Headset")),
            ("112233000001".to_string(), named("Speaker")),
            ("998877000002".to_string(), named("Keyboard")),
        ],
    }
}

fn not_paired() -> MigrateError {
    MigrateError::NotPaired { label: "Headset".to_string(), address: "11:22:33:44:55:66".to_string() }
}

const ADAPTER: [u8; 6] = [0xaa, 0xbb, 0xcc, 0xdd, 0xee, 0x01];

#[test]
fn exact_match_is_returned_without_candidates() {
    let possible = vec![
        (vec![0x11, 0x22, 0x33, 0x00, 0x00, 0x01], Some("Speaker".to_string())),
        (vec![0x11, 0x22, 0x33, 0x44, 0x55, 0x66], None),
    ];
    assert_eq!(
        check_or_suggest_addr(&[0x11, 0x22, 0x33, 0x44, 0x55, 0x66], "Headset", possible),
        Ok(Suggestion::Paired(vec![0x11, 0x22, 0x33, 0x44, 0x55, 0x66]))
    );
}

#[test]
fn only_same_oui_candidates_are_offered() {
    let possible = vec![
        (vec![0x11, 0x22, 0x33, 0x00, 0x00, 0x01], Some("Speaker".to_string())),
        (vec![0x99, 0x88, 0x77, 0x44, 0x55, 0x66], Some("Headset twin".to_string())),
        (vec![0x11, 0x22, 0x34, 0x44, 0x55, 0x66], Some("Headset".to_string())),
        (vec![0x11, 0x22, 0x33, 0x00, 0x00, 0x02], None),
        (vec![0x11, 0x22, 0x33, 0x00, 0x00, 0x03], Some("Other".to_string())),
    ];
    assert_eq!(
        check_or_suggest_addr(&[0x11, 0x22, 0x33, 0x44, 0x55, 0x66], "Headset", possible),
        Ok(Suggestion::Similar(vec![
            (vec![0x11, 0x22, 0x33, 0x00, 0x00, 0x01], "Speaker".to_string()),
            (vec![0x11, 0x22, 0x33, 0x00, 0x00, 0x03], "Other".to_string()),
        ]))
    );
}

#[test]
fn no_similar_address_is_not_paired() {
    let possible = vec![(vec![0x99, 0x88, 0x77, 0x44, 0x55, 0x66], Some("Keyboard".to_string()))];
    assert_eq!(check_or_suggest_addr(&[0x11, 0x22, 0x33, 0x44, 0x55, 0x66], "Headset", possible), Err(not_paired()));
    assert_eq!(check_or_suggest_addr(&[0x11, 0x22, 0x33, 0x44, 0x55, 0x66], "Headset", vec![]), Err(not_paired()));
}

fn two_candidates() -> Vec<(Vec<u8>, String)> {
    vec![
        (vec![0x11, 0x22, 0x33, 0x00, 0x00, 0x01], "Speaker".to_string()),
        (vec![0x11, 0x22, 0x33, 0x00, 0x00, 0x03], "Other".to_string()),
    ]
}

#[test]
fn selection_is_one_based_and_repeatable() {
    assert_eq!(choose_candidate(two_candidates(), Some(1)), Ok(vec![0x11, 0x22, 0x33, 0x00, 0x00, 0x01]));
    assert_eq!(choose_candidate(two_candidates(), Some(2)), Ok(vec![0x11, 0x22, 0x33, 0x00, 0x00, 0x03]));
    assert_eq!(choose_candidate(two_candidates(), Some(2)), choose_candidate(two_candidates(), Some(2)));
}

#[test]
fn zero_or_past_the_end_is_invalid_selection() {
    assert_eq!(choose_candidate(two_candidates(), Some(0)), Err(MigrateError::InvalidSelection));
    assert_eq!(choose_candidate(two_candidates(), Some(3)), Err(MigrateError::InvalidSelection));
    assert_eq!(choose_candidate(two_candidates(), Some(u64::MAX)), Err(MigrateError::InvalidSelection));
    assert_eq!(choose_candidate(two_candidates(), None), Err(MigrateError::UserCancelled));
}

#[test]
fn answer_lines_are_trimmed_and_parsed() {
    assert_eq!(select_candidate(two_candidates(), "2\n"), Ok(vec![0x11, 0x22, 0x33, 0x00, 0x00, 0x03]));
    assert_eq!(select_candidate(two_candidates(), "  1  \r\n"), Ok(vec![0x11, 0x22, 0x33, 0x00, 0x00, 0x01]));
    assert_eq!(select_candidate(two_candidates(), "\n"), Err(MigrateError::UserCancelled));
    assert_eq!(select_candidate(two_candidates(), ""), Err(MigrateError::UserCancelled));
    assert_eq!(select_candidate(two_candidates(), "one\n"), Err(MigrateError::UserCancelled));
    assert_eq!(select_candidate(two_candidates(), "0\n"), Err(MigrateError::InvalidSelection));
    assert_eq!(select_candidate(two_candidates(), "5\n"), Err(MigrateError::InvalidSelection));
    assert_eq!(select_candidate(two_candidates(), "99999999999999999999\n"), Err(MigrateError::InvalidSelection));
    assert_eq!(select_candidate(two_candidates(), "+2"), Ok(vec![0x11, 0x22, 0x33, 0x00, 0x00, 0x03]));
    assert_eq!(select_candidate(two_candidates(), "\u{3000}1\u{a0}"), Ok(vec![0x11, 0x22, 0x33, 0x00, 0x00, 0x01]));
    assert_eq!(select_candidate(two_candidates(), "-1"), Err(MigrateError::UserCancelled));
}

#[test]
fn store_lookup_finds_exact_classic_device() {
    let store = classic_store();
    assert_eq!(
        check_or_suggest_addr_with_reg(&store, &ADAPTER, &[0x11, 0x22, 0x33, 0x44, 0x55, 0x66], "Headset", false),
        Ok(Suggestion::Paired(vec![0x11, 0x22, 0x33, 0x44, 0x55, 0x66]))
    );
}

#[test]
fn store_lookup_suggests_named_similar_devices() {
    let store = classic_store();
    assert_eq!(
        check_or_suggest_addr_with_reg(&store, &ADAPTER, &[0x11, 0x22, 0x33, 0x77, 0x77, 0x77], "Headset", false),
        Ok(Suggestion::Similar(vec![
            (vec![0x11, 0x22, 0x33, 0x00, 0x00, 0x01], "Speaker".to_string()),
            (vec![0x11, 0x22, 0x33, 0x44, 0x55, 0x66], "Headset".to_string()),
        ]))
    );
    assert_eq!(
        check_or_suggest_addr_with_reg(&store, &ADAPTER, &[0x11, 0x22, 0x33, 0x77, 0x77, 0x77], "Headset", true),
        Err(MigrateError::NotPaired { label: "Headset".to_string(), address: "11:22:33:77:77:77".to_string() })
    );
}

#[test]
fn store_lookup_needs_the_adapter() {
    let store = classic_store();
    assert_eq!(
        check_or_suggest_addr_with_reg(&store, &[1, 2, 3, 4, 5, 6], &[0x11, 0x22, 0x33, 0x44, 0x55, 0x66], "Headset", false),
        Err(MigrateError::NotFound)
    );
}

#[test]
fn candidate_order_does_not_depend_on_listing_order() {
    let a = (vec![0x11, 0x22, 0x33, 0x00, 0x00, 0x09], Some("Nine".to_string()));
    let b = (vec![0x11, 0x22, 0x33, 0x00, 0x00, 0x02], Some("Two".to_string()));
    let c = (vec![0x11, 0x22, 0x33, 0x00, 0x00, 0x05], Some("Five".to_string()));
    let target = [0x11, 0x22, 0x33, 0x44, 0x55, 0x66];
    let r1 = check_or_suggest_addr(&target, "Headset", vec![a.clone(), b.clone(), c.clone()]);
    let r2 = check_or_suggest_addr(&target, "Headset", vec![c, a, b]);
    assert_eq!(r1, r2);
    let cands = match r1 {
        Ok(Suggestion::Similar(cands)) => cands,
        _ => panic!("expected candidates"),
    };
    assert_eq!(cands[0].1, "Two");
    assert_eq!(cands[1].1, "Five");
    assert_eq!(cands[2].1, "Nine");
    assert_eq!(select_candidate(cands, "1"), Ok(vec![0x11, 0x22, 0x33, 0x00, 0x00, 0x02]));
}

#[test]
fn last_entry_for_an_address_counts() {
    let target = [0x11, 0x22, 0x33, 0x44, 0x55, 0x66];
    let named_then_unnamed = vec![
        (vec![0x11, 0x22, 0x33, 0x00, 0x00, 0x01], Some("Old".to_string())),
        (vec![0x11, 0x22, 0x33, 0x00, 0x00, 0x01], None),
    ];
    assert_eq!(check_or_suggest_addr(&target, "Headset", named_then_unnamed), Err(not_paired()));
    let renamed = vec![
        (vec![0x11, 0x22, 0x33, 0x00, 0x00, 0x01], Some("Old".to_string())),
        (vec![0x11, 0x22, 0x33, 0x00, 0x00, 0x01], Some("New".to_string())),
    ];
    assert_eq!(
        check_or_suggest_addr(&target, "Headset", renamed),
        Ok(Suggestion::Similar(vec![(vec![0x11, 0x22, 0x33, 0x00, 0x00, 0x01], "New".to_string())]))
    );
}
