//! Writing one device's credentials into the destination store, and moving
//! its records to the snapshot address when the destination knew it under
//! another one. Everything is checked before the first write, so a call
//! either makes all its changes or none.
use vstd::prelude::*;

use crate::error::MigrateError;
use crate::keyed::{get_str, lookup};
use crate::mac::{compact_decode, format_mac_win, hex_encode, lemma_mac_round_trip};
use crate::model::{copy_bytes, same_bytes, BLEDeviceCreds, DeviceCreds, LongTermKey, RegularDeviceCreds};
use crate::store::{has_type, holds, BtStore, RegType, RegValue};

verus! {

/// `v` as `n` bytes, least significant first.
pub open spec fn le_bytes(v: nat, n: nat) -> Seq<u8>
    decreases n,
{
    if n == 0 {
        seq![]
    } else {
        seq![(v % 256) as u8] + le_bytes(v / 256, (n - 1) as nat)
    }
}

/// The address read as a big-endian 64-bit integer, stored least significant
/// byte first.
pub open spec fn qword_address(a: Seq<u8>) -> Seq<u8> {
    seq![a[5], a[4], a[3], a[2], a[1], a[0], 0u8, 0u8]
}

/// The long-term key to write: the one of the two roles that is present.
pub open spec fn ltk_choice(b: BLEDeviceCreds) -> Option<LongTermKey> {
    match (b.long_term_key, b.peripheral_long_term_key) {
        (Some(l), None) => Some(l),
        (None, Some(l)) => Some(l),
        _ => None,
    }
}

/// BLE credentials with both long-term keys or neither.
pub open spec fn ltk_ambiguous(c: DeviceCreds) -> bool {
    c matches DeviceCreds::BLE(b) && ltk_choice(b) is None
}

/// Why a classic device's key cannot be written at `l` under adapter `a`.
pub open spec fn regular_error(s: BtStore, a: Seq<char>, l: Seq<char>) -> Option<MigrateError> {
    if s.adapter_of(a) is None {
        Some(MigrateError::NotFound)
    } else if !has_type(s.adapter_value(a, l), RegType::Binary) {
        Some(MigrateError::UnexpectedExistingState)
    } else {
        None
    }
}

/// Why a BLE device's keys cannot be written at child node `l` of adapter `a`.
pub open spec fn ble_error(s: BtStore, a: Seq<char>, l: Seq<char>) -> Option<MigrateError> {
    if s.device_node(a, l) is None {
        Some(MigrateError::NotFound)
    } else if !(has_type(s.device_value(a, l, "IRK"@), RegType::Binary) && has_type(
        s.device_value(a, l, "LTK"@),
        RegType::Binary,
    ) && has_type(s.device_value(a, l, "EDIV"@), RegType::Dword) && has_type(
        s.device_value(a, l, "ERand"@),
        RegType::Qword,
    ) && has_type(s.device_value(a, l, "KeyLength"@), RegType::Dword)) {
        Some(MigrateError::UnexpectedExistingState)
    } else {
        None
    }
}

/// Why the existing state of the store does not allow the write.
pub open spec fn store_error(s: BtStore, c: DeviceCreds, a: Seq<char>, l: Seq<char>) -> Option<MigrateError> {
    match c {
        DeviceCreds::Regular(_) => regular_error(s, a, l),
        DeviceCreds::BLE(_) => ble_error(s, a, l),
    }
}

/// Why `apply_device` refuses, checked in this order; `None` where it writes.
pub open spec fn apply_error(
    s: BtStore,
    c: DeviceCreds,
    adapter: Seq<u8>,
    local: Seq<u8>,
    device: Seq<u8>,
) -> Option<MigrateError> {
    let a = hex_encode(adapter);
    let l = hex_encode(local);
    if adapter.len() != 6 || local.len() != 6 || device.len() != 6 {
        Some(MigrateError::InvalidAddress)
    } else if ltk_ambiguous(c) {
        Some(MigrateError::AmbiguousInvariantViolation)
    } else if store_error(s, c, a, l) is Some {
        store_error(s, c, a, l)
    } else if local != device && s.info_node(l) is None {
        Some(MigrateError::NotFound)
    } else {
        None
    }
}

/// `s` holds the BLE keys of `b` in child node `d` of adapter `a`.
pub open spec fn ble_written(s: BtStore, a: Seq<char>, d: Seq<char>, b: BLEDeviceCreds) -> bool {
    let l = ltk_choice(b)->Some_0;
    &&& holds(s.device_value(a, d, "IRK"@), RegType::Binary, b.identity_resolving_key@)
    &&& holds(s.device_value(a, d, "LTK"@), RegType::Binary, l.key@)
    &&& holds(s.device_value(a, d, "EDIV"@), RegType::Dword, le_bytes(l.ediv as nat, 4))
    &&& holds(s.device_value(a, d, "ERand"@), RegType::Qword, le_bytes(l.rand as nat, 8))
    &&& holds(s.device_value(a, d, "KeyLength"@), RegType::Dword, le_bytes(l.enc_size as nat, 4))
}

/// `v` as `n` bytes, least significant first.
fn to_le(v: u64, n: usize) -> (r: Vec<u8>)
    ensures
        r@ == le_bytes(v as nat, n as nat),
{
    let mut out: Vec<u8> = Vec::new();
    let mut x: u64 = v;
    let mut i: usize = 0;
    assert(out@ + le_bytes(x as nat, n as nat) =~= le_bytes(v as nat, n as nat));
    while i < n
        invariant
            i <= n,
            out@ + le_bytes(x as nat, (n - i) as nat) == le_bytes(v as nat, n as nat),
        decreases n - i,
    {
        let ghost before = out@;
        let ghost m = (n - i) as nat;
        let ghost xo = x as nat;
        assert(le_bytes(xo, m) == seq![(xo % 256) as u8] + le_bytes(xo / 256, (m - 1) as nat));
        out.push((x % 256) as u8);
        x = x / 256;
        i = i + 1;
        assert(out@ + le_bytes(x as nat, (n - i) as nat) =~= before + le_bytes(xo, m));
    }
    assert(out@ + le_bytes(x as nat, 0) =~= out@);
    out
}

/// Fails unless value `name` exists with type `expected`.
pub fn validate_reg_value(values: &Vec<(String, RegValue)>, name: &String, expected: RegType) -> (r:
    Result<(), MigrateError>)
    ensures
        r is Ok <==> has_type(lookup(values@, name@), expected),
        r matches Err(e) ==> e == MigrateError::UnexpectedExistingState,
{
    match get_str(values, name) {
        Some(v) => {
            if v.vtype == expected {
                Ok(())
            } else {
                Err(MigrateError::UnexpectedExistingState)
            }
        },
        None => Err(MigrateError::UnexpectedExistingState),
    }
}

fn check_regular(store: &BtStore, akey: &String, lkey: &String) -> (r: Result<(), MigrateError>)
    ensures
        match regular_error(*store, akey@, lkey@) {
            Some(e) => r == Err::<(), MigrateError>(e),
            None => r is Ok,
        },
{
    let node = match get_str(&store.adapters, akey) {
        Some(n) => n,
        None => return Err(MigrateError::NotFound),
    };
    validate_reg_value(&node.values, lkey, RegType::Binary)
}

fn check_ble(store: &BtStore, akey: &String, lkey: &String) -> (r: Result<(), MigrateError>)
    ensures
        match ble_error(*store, akey@, lkey@) {
            Some(e) => r == Err::<(), MigrateError>(e),
            None => r is Ok,
        },
{
    let node = match get_str(&store.adapters, akey) {
        Some(n) => n,
        None => return Err(MigrateError::NotFound),
    };
    let dev = match get_str(&node.devices, lkey) {
        Some(d) => d,
        None => return Err(MigrateError::NotFound),
    };
    validate_reg_value(&dev.values, &String::from_str("IRK"), RegType::Binary)?;
    validate_reg_value(&dev.values, &String::from_str("LTK"), RegType::Binary)?;
    validate_reg_value(&dev.values, &String::from_str("EDIV"), RegType::Dword)?;
    validate_reg_value(&dev.values, &String::from_str("ERand"), RegType::Qword)?;
    validate_reg_value(&dev.values, &String::from_str("KeyLength"), RegType::Dword)
}

proof fn lemma_value_names_distinct()
    ensures
        "IRK"@ != "LTK"@,
        "IRK"@ != "EDIV"@,
        "IRK"@ != "ERand"@,
        "IRK"@ != "KeyLength"@,
        "IRK"@ != "Address"@,
        "LTK"@ != "EDIV"@,
        "LTK"@ != "ERand"@,
        "LTK"@ != "KeyLength"@,
        "LTK"@ != "Address"@,
        "EDIV"@ != "ERand"@,
        "EDIV"@ != "KeyLength"@,
        "EDIV"@ != "Address"@,
        "ERand"@ != "KeyLength"@,
        "ERand"@ != "Address"@,
        "KeyLength"@ != "Address"@,
{
    reveal_strlit("IRK");
    reveal_strlit("LTK");
    reveal_strlit("EDIV");
    reveal_strlit("ERand");
    reveal_strlit("KeyLength");
    reveal_strlit("Address");
    assert("IRK"@[0] != "LTK"@[0]);
    assert("ERand"@[0] != "EDIV"@[1]);
    assert("ERand"@[1] != "EDIV"@[1]);
    assert("KeyLength"@.len() != "Address"@.len());
}

/// Why a long-term key cannot be written into child node `l` of adapter `a`.
pub open spec fn ltk_error(s: BtStore, a: Seq<char>, l: Seq<char>) -> Option<MigrateError> {
    if s.device_node(a, l) is None {
        Some(MigrateError::NotFound)
    } else if !(has_type(s.device_value(a, l, "LTK"@), RegType::Binary) && has_type(
        s.device_value(a, l, "EDIV"@),
        RegType::Dword,
    ) && has_type(s.device_value(a, l, "ERand"@), RegType::Qword) && has_type(
        s.device_value(a, l, "KeyLength"@),
        RegType::Dword,
    )) {
        Some(MigrateError::UnexpectedExistingState)
    } else {
        None
    }
}

/// Why BLE credentials `b` cannot be written into child node `l` of adapter `a`.
pub open spec fn ble_creds_error(s: BtStore, b: BLEDeviceCreds, a: Seq<char>, l: Seq<char>) -> Option<MigrateError> {
    if ltk_choice(b) is None {
        Some(MigrateError::AmbiguousInvariantViolation)
    } else {
        ble_error(s, a, l)
    }
}

fn check_ltk(store: &BtStore, akey: &String, lkey: &String) -> (r: Result<(), MigrateError>)
    ensures
        match ltk_error(*store, akey@, lkey@) {
            Some(e) => r == Err::<(), MigrateError>(e),
            None => r is Ok,
        },
{
    let node = match get_str(&store.adapters, akey) {
        Some(n) => n,
        None => return Err(MigrateError::NotFound),
    };
    let dev = match get_str(&node.devices, lkey) {
        Some(d) => d,
        None => return Err(MigrateError::NotFound),
    };
    validate_reg_value(&dev.values, &String::from_str("LTK"), RegType::Binary)?;
    validate_reg_value(&dev.values, &String::from_str("EDIV"), RegType::Dword)?;
    validate_reg_value(&dev.values, &String::from_str("ERand"), RegType::Qword)?;
    validate_reg_value(&dev.values, &String::from_str("KeyLength"), RegType::Dword)
}

/// Writes the link key of a classic device over the existing value `lkey`
/// of the adapter node `akey`. The node must exist and the value must
/// already be binary; otherwise nothing is written.
pub fn apply_regular(store: &mut BtStore, creds: &RegularDeviceCreds, akey: &String, lkey: &String) -> (r: Result<(), MigrateError>)
    ensures
        old(store).wf() ==> final(store).wf(),
        match regular_error(*old(store), akey@, lkey@) {
            Some(e) => r == Err::<(), MigrateError>(e) && *final(store) == *old(store),
            None => r is Ok,
        },
        r is Ok ==> final(store).adapter_of(akey@) is Some,
        r is Ok ==> holds(final(store).adapter_value(akey@, lkey@), RegType::Binary, creds.link_key@),
        r is Ok ==> forall|v: Seq<char>| v != lkey@ ==> #[trigger] final(store).adapter_value(akey@, v)
            == old(store).adapter_value(akey@, v),
        r is Ok ==> forall|d: Seq<char>| #[trigger] final(store).device_node(akey@, d) == old(store).device_node(akey@, d),
        r is Ok ==> forall|a2: Seq<char>| a2 != akey@ ==> #[trigger] final(store).adapter_of(a2)
            == old(store).adapter_of(a2),
        r is Ok ==> final(store).device_info == old(store).device_info,
        r is Ok ==> forall|x: Seq<char>| #[trigger] final(store).info_node(x) == old(store).info_node(x),
{
    check_regular(store, akey, lkey)?;
    let bytes = copy_bytes(creds.link_key.as_slice());
    store.set_adapter_value(akey, lkey.clone(), RegValue { vtype: RegType::Binary, bytes });
    Ok(())
}

/// Writes a long-term key and its metadata into the BLE device node `lkey`
/// of adapter `akey`, which exists.
fn write_ltk(store: &mut BtStore, akey: &String, lkey: &String, new_ltk: &LongTermKey)
    requires
        old(store).device_node(akey@, lkey@) is Some,
    ensures
        old(store).wf() ==> final(store).wf(),
        final(store).device_node(akey@, lkey@) is Some,
        holds(final(store).device_value(akey@, lkey@, "LTK"@), RegType::Binary, new_ltk.key@),
        holds(final(store).device_value(akey@, lkey@, "EDIV"@), RegType::Dword, le_bytes(new_ltk.ediv as nat, 4)),
        holds(final(store).device_value(akey@, lkey@, "ERand"@), RegType::Qword, le_bytes(new_ltk.rand as nat, 8)),
        holds(final(store).device_value(akey@, lkey@, "KeyLength"@), RegType::Dword, le_bytes(new_ltk.enc_size as nat, 4)),
        forall|v: Seq<char>|
            v != "LTK"@ && v != "EDIV"@ && v != "ERand"@ && v != "KeyLength"@
                ==> #[trigger] final(store).device_value(akey@, lkey@, v) == old(store).device_value(akey@, lkey@, v),
        forall|d2: Seq<char>| d2 != lkey@ ==> #[trigger] final(store).device_node(akey@, d2)
            == old(store).device_node(akey@, d2),
        forall|v: Seq<char>| #[trigger] final(store).adapter_value(akey@, v) == old(store).adapter_value(akey@, v),
        forall|a2: Seq<char>| a2 != akey@ ==> #[trigger] final(store).adapter_of(a2)
            == old(store).adapter_of(a2),
        final(store).device_info == old(store).device_info,
        forall|x: Seq<char>| #[trigger] final(store).info_node(x) == old(store).info_node(x),
{
    proof {
        lemma_value_names_distinct();
    }
    let key = copy_bytes(new_ltk.key.as_slice());
    store.set_device_value(akey, lkey, String::from_str("LTK"), RegValue { vtype: RegType::Binary, bytes: key });
    let ediv = to_le(new_ltk.ediv as u64, 4);
    store.set_device_value(akey, lkey, String::from_str("EDIV"), RegValue { vtype: RegType::Dword, bytes: ediv });
    let rand = to_le(new_ltk.rand, 8);
    store.set_device_value(akey, lkey, String::from_str("ERand"), RegValue { vtype: RegType::Qword, bytes: rand });
    let len = to_le(new_ltk.enc_size as u64, 4);
    store.set_device_value(akey, lkey, String::from_str("KeyLength"), RegValue { vtype: RegType::Dword, bytes: len });
}

/// Writes a long-term key and its metadata over the existing values of the
/// BLE device node `lkey` of adapter `akey`. All four values must already
/// exist with their types; otherwise nothing is written.
pub fn apply_ble_ltk(store: &mut BtStore, akey: &String, lkey: &String, new_ltk: &LongTermKey) -> (r: Result<(), MigrateError>)
    ensures
        old(store).wf() ==> final(store).wf(),
        match ltk_error(*old(store), akey@, lkey@) {
            Some(e) => r == Err::<(), MigrateError>(e) && *final(store) == *old(store),
            None => r is Ok,
        },
        r is Ok ==> final(store).device_node(akey@, lkey@) is Some,
        r is Ok ==> holds(final(store).device_value(akey@, lkey@, "LTK"@), RegType::Binary, new_ltk.key@),
        r is Ok ==> holds(final(store).device_value(akey@, lkey@, "EDIV"@), RegType::Dword, le_bytes(new_ltk.ediv as nat, 4)),
        r is Ok ==> holds(final(store).device_value(akey@, lkey@, "ERand"@), RegType::Qword, le_bytes(new_ltk.rand as nat, 8)),
        r is Ok ==> holds(final(store).device_value(akey@, lkey@, "KeyLength"@), RegType::Dword, le_bytes(new_ltk.enc_size as nat, 4)),
        r is Ok ==> forall|v: Seq<char>|
            v != "LTK"@ && v != "EDIV"@ && v != "ERand"@ && v != "KeyLength"@
                ==> #[trigger] final(store).device_value(akey@, lkey@, v) == old(store).device_value(akey@, lkey@, v),
        r is Ok ==> forall|d2: Seq<char>| d2 != lkey@ ==> #[trigger] final(store).device_node(akey@, d2)
            == old(store).device_node(akey@, d2),
        r is Ok ==> forall|v: Seq<char>| #[trigger] final(store).adapter_value(akey@, v) == old(store).adapter_value(akey@, v),
        r is Ok ==> forall|a2: Seq<char>| a2 != akey@ ==> #[trigger] final(store).adapter_of(a2)
            == old(store).adapter_of(a2),
        r is Ok ==> final(store).device_info == old(store).device_info,
        r is Ok ==> forall|x: Seq<char>| #[trigger] final(store).info_node(x) == old(store).info_node(x),
{
    check_ltk(store, akey, lkey)?;
    write_ltk(store, akey, lkey, new_ltk);
    Ok(())
}

/// Writes the identity resolving key and the one long-term key of a BLE
/// device over the existing values of its node `lkey` of adapter `akey`.
/// Both long-term keys or neither is ambiguous; a missing node or value, or
/// one of another type, is refused too; either way nothing is written.
pub fn apply_ble(store: &mut BtStore, creds: &BLEDeviceCreds, akey: &String, lkey: &String) -> (r: Result<(), MigrateError>)
    ensures
        old(store).wf() ==> final(store).wf(),
        match ble_creds_error(*old(store), *creds, akey@, lkey@) {
            Some(e) => r == Err::<(), MigrateError>(e) && *final(store) == *old(store),
            None => r is Ok,
        },
        r is Ok ==> final(store).device_node(akey@, lkey@) is Some,
        r is Ok ==> ble_written(*final(store), akey@, lkey@, *creds),
        r is Ok ==> forall|v: Seq<char>|
            v != "IRK"@ && v != "LTK"@ && v != "EDIV"@ && v != "ERand"@ && v != "KeyLength"@
                ==> #[trigger] final(store).device_value(akey@, lkey@, v) == old(store).device_value(akey@, lkey@, v),
        r is Ok ==> forall|d2: Seq<char>| d2 != lkey@ ==> #[trigger] final(store).device_node(akey@, d2)
            == old(store).device_node(akey@, d2),
        r is Ok ==> forall|v: Seq<char>| #[trigger] final(store).adapter_value(akey@, v) == old(store).adapter_value(akey@, v),
        r is Ok ==> forall|a2: Seq<char>| a2 != akey@ ==> #[trigger] final(store).adapter_of(a2)
            == old(store).adapter_of(a2),
        r is Ok ==> final(store).device_info == old(store).device_info,
        r is Ok ==> forall|x: Seq<char>| #[trigger] final(store).info_node(x) == old(store).info_node(x),
{
    proof {
        lemma_value_names_distinct();
    }
    let ltk = match chosen_ltk(creds) {
        Some(l) => l,
        None => return Err(MigrateError::AmbiguousInvariantViolation),
    };
    check_ble(store, akey, lkey)?;
    let irk = copy_bytes(creds.identity_resolving_key.as_slice());
    store.set_device_value(akey, lkey, String::from_str("IRK"), RegValue { vtype: RegType::Binary, bytes: irk });
    write_ltk(store, akey, lkey, ltk);
    Ok(())
}

/// Moves the information node of a device from `from` to `to`; where `to`
/// already exists it is kept and `from` is only removed.
pub fn move_device_info(store: &mut BtStore, from: &String, to: String)
    requires
        old(store).info_node(from@) is Some,
        from@ != to@,
    ensures
        old(store).wf() ==> final(store).wf(),
        final(store).info_node(to@) == (if old(store).info_node(to@) is Some {
            old(store).info_node(to@)
        } else {
            old(store).info_node(from@)
        }),
        final(store).info_node(from@) is None,
        forall|d2: Seq<char>| d2 != from@ && d2 != to@ ==> #[trigger] final(store).info_node(d2)
            == old(store).info_node(d2),
        final(store).adapters == old(store).adapters,
        forall|a2: Seq<char>| #[trigger] final(store).adapter_of(a2) == old(store).adapter_of(a2),
        forall|a2: Seq<char>, v: Seq<char>| #[trigger] final(store).adapter_value(a2, v) == old(store).adapter_value(a2, v),
        forall|a2: Seq<char>, x: Seq<char>| #[trigger] final(store).device_node(a2, x) == old(store).device_node(a2, x),
{
    store.move_info_node(from, to);
}

/// The long-term key of the one role that is present.
fn chosen_ltk(b: &BLEDeviceCreds) -> (r: Option<&LongTermKey>)
    ensures
        match r {
            Some(l) => ltk_choice(*b) == Some(*l),
            None => ltk_choice(*b) is None,
        },
{
    match (&b.long_term_key, &b.peripheral_long_term_key) {
        (Some(l), None) => Some(l),
        (None, Some(l)) => Some(l),
        _ => None,
    }
}

/// Everything an apply checks before its first write; on success the
/// compact names of the adapter, the local and the snapshot address, and
/// whether the device moves.
fn check_apply(
    store: &BtStore,
    creds: &DeviceCreds,
    adapter_addr: &[u8],
    local_addr: &[u8],
    device_addr: &[u8],
) -> (r: Result<(String, String, String, bool), MigrateError>)
    ensures
        match apply_error(*store, *creds, adapter_addr@, local_addr@, device_addr@) {
            Some(e) => r == Err::<(String, String, String, bool), MigrateError>(e),
            None => r matches Ok(k) && k.0@ == hex_encode(adapter_addr@) && k.1@ == hex_encode(local_addr@)
                && k.2@ == hex_encode(device_addr@) && k.3 == (local_addr@ != device_addr@),
        },
{
    if adapter_addr.len() != 6 || local_addr.len() != 6 || device_addr.len() != 6 {
        return Err(MigrateError::InvalidAddress);
    }
    if let DeviceCreds::BLE(b) = creds {
        let one_key = match (&b.long_term_key, &b.peripheral_long_term_key) {
            (Some(_), None) => true,
            (None, Some(_)) => true,
            _ => false,
        };
        if !one_key {
            return Err(MigrateError::AmbiguousInvariantViolation);
        }
    }
    let akey = format_mac_win(adapter_addr)?;
    let lkey = format_mac_win(local_addr)?;
    let dkey = format_mac_win(device_addr)?;
    match creds {
        DeviceCreds::Regular(_) => check_regular(store, &akey, &lkey)?,
        DeviceCreds::BLE(_) => check_ble(store, &akey, &lkey)?,
    }
    let moved = !same_bytes(local_addr, device_addr);
    if moved && get_str(&store.device_info, &lkey).is_none() {
        return Err(MigrateError::NotFound);
    }
    Ok((akey, lkey, dkey, moved))
}

/// What a successful `apply_device` leaves in the store `new` that was `old`:
/// the keys under the snapshot address `device`, the records that stood
/// under `local` moved there, and every other adapter untouched.
pub open spec fn applied(
    old: BtStore,
    new: BtStore,
    c: DeviceCreds,
    adapter: Seq<u8>,
    local: Seq<u8>,
    device: Seq<u8>,
) -> bool {
    let a = hex_encode(adapter);
    let l = hex_encode(local);
    let d = hex_encode(device);
    &&& forall|a2: Seq<char>| a2 != a ==> #[trigger] new.adapter_of(a2) == old.adapter_of(a2)
    &&& forall|x: Seq<char>| x != l && x != d ==> #[trigger] new.info_node(x) == old.info_node(x)
    &&& local == device ==> new.info_node(l) == old.info_node(l)
    &&& match c {
        DeviceCreds::Regular(r) => {
            &&& holds(new.adapter_value(a, d), RegType::Binary, r.link_key@)
            &&& forall|v: Seq<char>| v != l && v != d ==> #[trigger] new.adapter_value(a, v) == old.adapter_value(a, v)
            &&& forall|x: Seq<char>| #[trigger] new.device_node(a, x) == old.device_node(a, x)
        },
        DeviceCreds::BLE(b) => {
            &&& ble_written(new, a, d, b)
            &&& forall|v: Seq<char>| #[trigger] new.adapter_value(a, v) == old.adapter_value(a, v)
            &&& forall|x: Seq<char>| x != l && x != d ==> #[trigger] new.device_node(a, x) == old.device_node(a, x)
            &&& forall|v: Seq<char>|
                v != "IRK"@ && v != "LTK"@ && v != "EDIV"@ && v != "ERand"@ && v != "KeyLength"@ && v != "Address"@
                    ==> #[trigger] new.device_value(a, d, v) == old.device_value(a, l, v)
        },
    }
    &&& local != device ==> {
        &&& new.info_node(l) is None
        &&& new.info_node(d) == (if old.info_node(d) is Some {
            old.info_node(d)
        } else {
            old.info_node(l)
        })
        &&& match c {
            DeviceCreds::Regular(_) => new.adapter_value(a, l) is None,
            DeviceCreds::BLE(_) => new.device_node(a, l) is None && holds(
                new.device_value(a, d, "Address"@),
                RegType::Qword,
                qword_address(device),
            ),
        }
    }
}

/// Writes a snapshot device's credentials into the destination store at
/// `local_addr`, the address the destination knows the device by, and moves
/// its records to the snapshot address `device_addr` where the two differ.
/// Every value it overwrites must already exist with the expected type; on
/// any error the store is left exactly as it was.
pub fn apply_device(
    store: &mut BtStore,
    creds: &DeviceCreds,
    adapter_addr: &[u8],
    local_addr: &[u8],
    device_addr: &[u8],
) -> (r: Result<(), MigrateError>)
    ensures
        old(store).wf() ==> final(store).wf(),
        match apply_error(*old(store), *creds, adapter_addr@, local_addr@, device_addr@) {
            Some(e) => r == Err::<(), MigrateError>(e) && *final(store) == *old(store),
            None => r is Ok && applied(
                *old(store),
                *final(store),
                *creds,
                adapter_addr@,
                local_addr@,
                device_addr@,
            ),
        },
{
    let (akey, lkey, dkey, moved) = check_apply(store, creds, adapter_addr, local_addr, device_addr)?;
    proof {
        lemma_mac_round_trip(local_addr@);
        lemma_mac_round_trip(device_addr@);
        lemma_value_names_distinct();
        if moved {
            assert(compact_decode(lkey@) != compact_decode(dkey@));
        }
    }
    let ghost s0 = *store;
    match creds {
        DeviceCreds::Regular(c) => {
            let _ = apply_regular(store, c, &akey, &lkey);
            if moved {
                move_device_info(store, &lkey, dkey.clone());
                let v = store.take_adapter_value(&akey, &lkey).unwrap();
                store.set_adapter_value(&akey, dkey, v);
            }
        },
        DeviceCreds::BLE(b) => {
            let _ = apply_ble(store, b, &akey, &lkey);
            let ghost s1 = *store;
            if moved {
                move_device_info(store, &lkey, dkey.clone());
                let ghost s2 = *store;
                store.move_device_node(&akey, &lkey, dkey.clone());
                let ghost s3 = *store;
                let a = device_addr;
                let bytes: Vec<u8> = vec![a[5], a[4], a[3], a[2], a[1], a[0], 0u8, 0u8];
                assert(bytes@ =~= qword_address(device_addr@));
                store.set_device_value(
                    &akey,
                    &dkey,
                    String::from_str("Address"),
                    RegValue { vtype: RegType::Qword, bytes },
                );
                assert forall|v: Seq<char>|
                    v != "IRK"@ && v != "LTK"@ && v != "EDIV"@ && v != "ERand"@ && v != "KeyLength"@
                        && v != "Address"@ implies #[trigger] store.device_value(akey@, dkey@, v)
                        == s0.device_value(akey@, lkey@, v) by {
                    assert(store.device_value(akey@, dkey@, v) == s3.device_value(akey@, dkey@, v));
                    assert(s3.device_node(akey@, dkey@) == s2.device_node(akey@, lkey@));
                    assert(s2.device_node(akey@, lkey@) == s1.device_node(akey@, lkey@));
                    assert(s1.device_value(akey@, lkey@, v) == s0.device_value(akey@, lkey@, v));
                }
            }
        },
    }
    Ok(())
}

/// A BLE credential set with both long-term keys or with neither is refused
/// as ambiguous, whatever the store holds, before anything is written.
pub proof fn lemma_ambiguous_refused(
    s: BtStore,
    c: DeviceCreds,
    adapter: Seq<u8>,
    local: Seq<u8>,
    device: Seq<u8>,
)
    requires
        adapter.len() == 6,
        local.len() == 6,
        device.len() == 6,
        c matches DeviceCreds::BLE(b) && ((b.long_term_key is Some && b.peripheral_long_term_key is Some)
            || (b.long_term_key is None && b.peripheral_long_term_key is None)),
    ensures
        apply_error(s, c, adapter, local, device) == Some(MigrateError::AmbiguousInvariantViolation),
{
}

/// The writes that an apply makes, for the destination store to replay in
/// one transaction.
#[derive(Debug, PartialEq, Eq)]
pub struct ApplyPlan {
    /// Compact name of the adapter node.
    pub adapter: String,
    /// The BLE device child node written into; `None` for a classic device,
    /// whose key is a value of the adapter node.
    pub device_node: Option<String>,
    /// Values overwritten, in order, each already present with its type.
    pub writes: Vec<(String, RegValue)>,
    /// Where the destination knew the device under another address: its old
    /// and its new compact name, for its key and information records.
    pub relocation: Option<(String, String)>,
    /// For a relocated BLE device, the new `Address` value of its node.
    pub address: Option<RegValue>,
}

/// `w` is the write of value `name` as `t` holding `b`.
pub open spec fn write_is(w: (String, RegValue), name: Seq<char>, t: RegType, b: Seq<u8>) -> bool {
    w.0@ == name && w.1.vtype == t && w.1.bytes@ == b
}

/// The writes of a BLE device's keys.
pub open spec fn ble_writes(w: Seq<(String, RegValue)>, b: BLEDeviceCreds) -> bool {
    let l = ltk_choice(b)->Some_0;
    &&& w.len() == 5
    &&& write_is(w[0], "IRK"@, RegType::Binary, b.identity_resolving_key@)
    &&& write_is(w[1], "LTK"@, RegType::Binary, l.key@)
    &&& write_is(w[2], "EDIV"@, RegType::Dword, le_bytes(l.ediv as nat, 4))
    &&& write_is(w[3], "ERand"@, RegType::Qword, le_bytes(l.rand as nat, 8))
    &&& write_is(w[4], "KeyLength"@, RegType::Dword, le_bytes(l.enc_size as nat, 4))
}

/// `p` is the plan for writing `c` at `local` and moving it to `device`.
pub open spec fn plan_matches(p: ApplyPlan, c: DeviceCreds, adapter: Seq<u8>, local: Seq<u8>, device: Seq<u8>) -> bool {
    let l = hex_encode(local);
    let d = hex_encode(device);
    &&& p.adapter@ == hex_encode(adapter)
    &&& if local != device {
        p.relocation matches Some(m) && m.0@ == l && m.1@ == d
    } else {
        p.relocation is None
    }
    &&& match c {
        DeviceCreds::Regular(r) => {
            &&& p.device_node is None
            &&& p.address is None
            &&& p.writes@.len() == 1
            &&& write_is(p.writes@[0], l, RegType::Binary, r.link_key@)
        },
        DeviceCreds::BLE(b) => {
            &&& p.device_node matches Some(n) && n@ == l
            &&& ble_writes(p.writes@, b)
            &&& if local != device {
                p.address matches Some(v) && v.vtype == RegType::Qword && v.bytes@ == qword_address(device)
            } else {
                p.address is None
            }
        },
    }
}

fn binary_write(name: &str, bytes: &[u8], t: RegType) -> (w: (String, RegValue))
    ensures
        w.0@ == name@,
        w.1.vtype == t,
        w.1.bytes@ == bytes@,
{
    (String::from_str(name), RegValue { vtype: t, bytes: copy_bytes(bytes) })
}

/// Checks the destination store as `apply_device` does, and returns the
/// writes it would make instead of making them.
pub fn plan_apply(
    store: &BtStore,
    creds: &DeviceCreds,
    adapter_addr: &[u8],
    local_addr: &[u8],
    device_addr: &[u8],
) -> (r: Result<ApplyPlan, MigrateError>)
    ensures
        match apply_error(*store, *creds, adapter_addr@, local_addr@, device_addr@) {
            Some(e) => r == Err::<ApplyPlan, MigrateError>(e),
            None => r matches Ok(p) && plan_matches(p, *creds, adapter_addr@, local_addr@, device_addr@),
        },
{
    let (akey, lkey, dkey, moved) = check_apply(store, creds, adapter_addr, local_addr, device_addr)?;
    let mut writes: Vec<(String, RegValue)> = Vec::new();
    let mut device_node: Option<String> = None;
    let mut address: Option<RegValue> = None;
    match creds {
        DeviceCreds::Regular(c) => {
            let w = (lkey.clone(), RegValue { vtype: RegType::Binary, bytes: copy_bytes(c.link_key.as_slice()) });
            writes.push(w);
        },
        DeviceCreds::BLE(b) => {
            let ltk = chosen_ltk(b).unwrap();
            writes.push(binary_write("IRK", b.identity_resolving_key.as_slice(), RegType::Binary));
            writes.push(binary_write("LTK", ltk.key.as_slice(), RegType::Binary));
            let ediv = to_le(ltk.ediv as u64, 4);
            writes.push(binary_write("EDIV", ediv.as_slice(), RegType::Dword));
            let rand = to_le(ltk.rand, 8);
            writes.push(binary_write("ERand", rand.as_slice(), RegType::Qword));
            let len = to_le(ltk.enc_size as u64, 4);
            writes.push(binary_write("KeyLength", len.as_slice(), RegType::Dword));
            device_node = Some(lkey.clone());
            if moved {
                let a = device_addr;
                let bytes: Vec<u8> = vec![a[5], a[4], a[3], a[2], a[1], a[0], 0u8, 0u8];
                assert(bytes@ =~= qword_address(device_addr@));
                address = Some(RegValue { vtype: RegType::Qword, bytes });
            }
        },
    }
    let relocation = if moved {
        Some((lkey, dkey))
    } else {
        None
    };
    Ok(ApplyPlan { adapter: akey, device_node, writes, relocation, address })
}

} // verus!
