//! Storage-neutral snapshot of paired devices and their credentials.
use vstd::prelude::*;

use crate::error::MigrateError;
use crate::keyed::{keys_unique, lookup, without};

verus! {

/// Raw bytes of a hardware address, used as the key of snapshot maps.
#[derive(Debug, PartialEq, Eq)]
pub struct BytesAsMACWrapper(pub Vec<u8>);

impl View for BytesAsMACWrapper {
    type V = Seq<u8>;

    open spec fn view(&self) -> Seq<u8> {
        self.0@
    }
}

/// Every paired device of every adapter of one host.
#[derive(Debug, PartialEq, Eq)]
pub struct DataDump {
    pub adapters: Vec<(BytesAsMACWrapper, Adapter)>,
}

/// The devices paired with one local adapter.
#[derive(Debug, PartialEq, Eq)]
pub struct Adapter {
    pub devices: Vec<(BytesAsMACWrapper, Device)>,
}

/// A paired device: its display name and its key material.
#[derive(Debug, PartialEq, Eq)]
pub struct Device {
    pub name: String,
    pub creds: DeviceCreds,
}

/// Key material of a classic device or of a BLE device.
#[derive(Debug, PartialEq, Eq)]
pub enum DeviceCreds {
    Regular(RegularDeviceCreds),
    BLE(BLEDeviceCreds),
}

/// Link key of a classic device.
#[derive(Debug, PartialEq, Eq)]
pub struct RegularDeviceCreds {
    pub link_key: Vec<u8>,
}

/// Identity resolving key and long-term keys of a BLE device.
#[derive(Debug, PartialEq, Eq)]
pub struct BLEDeviceCreds {
    pub identity_resolving_key: Vec<u8>,
    pub long_term_key: Option<LongTermKey>,
    pub peripheral_long_term_key: Option<LongTermKey>,
}

/// One role's long-term key with its metadata.
#[derive(Debug, PartialEq, Eq)]
pub struct LongTermKey {
    pub key: Vec<u8>,
    pub enc_size: u32,
    pub ediv: u32,
    pub rand: u64,
}

/// Byte-wise equality of two byte strings.
pub fn same_bytes(a: &[u8], b: &[u8]) -> (r: bool)
    ensures
        r == (a@ == b@),
{
    if a.len() != b.len() {
        return false;
    }
    let mut i: usize = 0;
    while i < a.len()
        invariant
            a@.len() == b@.len(),
            i <= a@.len(),
            forall|j: int| 0 <= j < i ==> a@[j] == b@[j],
        decreases a@.len() - i,
    {
        if a[i] != b[i] {
            return false;
        }
        i = i + 1;
    }
    assert(a@ =~= b@);
    true
}

/// Value of the last pair whose address is `k`.
pub fn get_mac<'a, V>(s: &'a Vec<(BytesAsMACWrapper, V)>, k: &[u8]) -> (r: Option<&'a V>)
    ensures
        match r {
            Some(v) => lookup(s@, k@) == Some(*v),
            None => lookup(s@, k@) is None,
        },
{
    let mut i: usize = s.len();
    assert(s@.subrange(0, i as int) =~= s@);
    while i > 0
        invariant
            i <= s@.len(),
            lookup(s@, k@) == lookup(s@.subrange(0, i as int), k@),
        decreases i,
    {
        assert(s@.subrange(0, i as int).drop_last() =~= s@.subrange(0, i - 1));
        if same_bytes(s[i - 1].0.0.as_slice(), k) {
            return Some(&s[i - 1].1);
        }
        i = i - 1;
    }
    None
}

/// Sets address `k` to `v`, dropping the pairs it had before.
pub fn put_mac<V>(s: &mut Vec<(BytesAsMACWrapper, V)>, k: BytesAsMACWrapper, v: V)
    ensures
        final(s)@ == without(old(s)@, k@).push((k, v)),
{
    let mut rest: Vec<(BytesAsMACWrapper, V)> = Vec::new();
    std::mem::swap(s, &mut rest);
    let ghost orig = rest@;
    let n: usize = rest.len();
    let mut i: usize = 0;
    assert(orig.subrange(0, 0) =~= Seq::<(BytesAsMACWrapper, V)>::empty());
    proof {
        reveal(Seq::filter);
    }
    while rest.len() > 0
        invariant
            orig == old(s)@,
            orig.len() == n,
            orig.len() == i + rest@.len(),
            rest@ == orig.subrange(i as int, orig.len() as int),
            s@ == without(orig.subrange(0, i as int), k@),
        decreases rest@.len(),
    {
        let e = rest.remove(0);
        proof {
            reveal(Seq::filter);
            assert(orig.subrange(0, i + 1).drop_last() =~= orig.subrange(0, i as int));
        }
        if !same_bytes(e.0.0.as_slice(), k.0.as_slice()) {
            s.push(e);
        }
        i = i + 1;
        assert(rest@ =~= orig.subrange(i as int, orig.len() as int));
    }
    assert(orig.subrange(0, i as int) =~= orig);
    s.push((k, v));
}

impl DataDump {
    /// Each adapter address appears once, and each adapter is well formed.
    pub open spec fn wf(&self) -> bool {
        &&& keys_unique(self.adapters@)
        &&& forall|i: int| 0 <= i < self.adapters@.len() ==> (#[trigger] self.adapters@[i]).1.wf()
    }

    /// The adapter recorded under `addr`.
    pub fn adapter(&self, addr: &[u8]) -> (r: Option<&Adapter>)
        ensures
            match r {
                Some(a) => lookup(self.adapters@, addr@) == Some(*a),
                None => lookup(self.adapters@, addr@) is None,
            },
    {
        get_mac(&self.adapters, addr)
    }
}

impl Adapter {
    /// Each device address appears once.
    pub open spec fn wf(&self) -> bool {
        keys_unique(self.devices@)
    }

    /// The device recorded under `addr`.
    pub fn device(&self, addr: &[u8]) -> (r: Option<&Device>)
        ensures
            match r {
                Some(d) => lookup(self.devices@, addr@) == Some(*d),
                None => lookup(self.devices@, addr@) is None,
            },
    {
        get_mac(&self.devices, addr)
    }
}

/// A fresh vector with the same bytes.
pub fn copy_bytes(b: &[u8]) -> (r: Vec<u8>)
    ensures
        r@ == b@,
{
    let mut out: Vec<u8> = Vec::new();
    let mut i: usize = 0;
    while i < b.len()
        invariant
            i <= b@.len(),
            out@ == b@.subrange(0, i as int),
        decreases b@.len() - i,
    {
        out.push(b[i]);
        i = i + 1;
        assert(out@ =~= b@.subrange(0, i as int));
    }
    assert(out@ =~= b@);
    out
}

/// The device recorded under `device` in the adapter recorded under `adapter`.
pub fn find_device<'a>(dump: &'a DataDump, adapter: &[u8], device: &[u8]) -> (r: Result<&'a Device, MigrateError>)
    ensures
        match lookup(dump.adapters@, adapter@) {
            None => r == Err::<&Device, MigrateError>(MigrateError::NotFound),
            Some(a) => match lookup(a.devices@, device@) {
                None => r == Err::<&Device, MigrateError>(MigrateError::NotFound),
                Some(d) => r matches Ok(x) && *x == d,
            },
        },
{
    let a = match dump.adapter(adapter) {
        Some(a) => a,
        None => return Err(MigrateError::NotFound),
    };
    match a.device(device) {
        Some(d) => Ok(d),
        None => Err(MigrateError::NotFound),
    }
}

} // verus!
