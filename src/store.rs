//! In-memory model of the destination store: a tree of pairing keys, one
//! node per adapter, holding classic link keys as values and BLE devices as
//! child nodes; beside it, one device-information node per device.
use vstd::prelude::*;
use vstd::utf8::{decode_utf8, valid_utf8};

use crate::error::MigrateError;
use crate::keyed::{
    extract_str, get_str, keys_unique, lemma_lookup_elem, lemma_lookup_push, lemma_lookup_without, lemma_put_unique,
    lemma_replace, lemma_without_unique, lookup, put_str, without,
};
use crate::mac::{format_mac_win, hex_encode};
use crate::model::copy_bytes;

verus! {

/// Type tag of a stored value.
#[derive(Debug, Clone, Copy, PartialEq, Eq, Structural)]
pub enum RegType {
    Binary,
    Dword,
    Qword,
    Other,
}

/// A stored value: its type tag and its raw bytes.
#[derive(Debug, PartialEq, Eq)]
pub struct RegValue {
    pub vtype: RegType,
    pub bytes: Vec<u8>,
}

/// A node that holds named values only.
#[derive(Debug, PartialEq, Eq)]
pub struct RegNode {
    pub values: Vec<(String, RegValue)>,
}

/// The node of one adapter: classic devices' link keys as values, BLE
/// devices as child nodes, each named by the compact address.
#[derive(Debug, PartialEq, Eq)]
pub struct AdapterNode {
    pub values: Vec<(String, RegValue)>,
    pub devices: Vec<(String, RegNode)>,
}

/// The destination store: adapters' key nodes and devices' information
/// nodes, each named by the compact address.
#[derive(Debug, PartialEq, Eq)]
pub struct BtStore {
    pub adapters: Vec<(String, AdapterNode)>,
    pub device_info: Vec<(String, RegNode)>,
}

/// `o` is a value of type `t` holding `b`.
pub open spec fn holds(o: Option<RegValue>, t: RegType, b: Seq<u8>) -> bool {
    o matches Some(v) && v.vtype == t && v.bytes@ == b
}

/// `o` is a value of type `t`.
pub open spec fn has_type(o: Option<RegValue>, t: RegType) -> bool {
    o matches Some(v) && v.vtype == t
}

impl RegNode {
    /// Each value name appears once.
    pub open spec fn wf(&self) -> bool {
        keys_unique(self.values@)
    }
}

impl AdapterNode {
    /// Each value name and each child node name appears once, and each child
    /// node is well formed.
    pub open spec fn wf(&self) -> bool {
        &&& keys_unique(self.values@)
        &&& keys_unique(self.devices@)
        &&& forall|i: int| 0 <= i < self.devices@.len() ==> (#[trigger] self.devices@[i]).1.wf()
    }
}

impl BtStore {
    /// Each adapter and each information node appears once under its name,
    /// and every node is well formed, as in the registry it stands for.
    pub open spec fn wf(&self) -> bool {
        &&& keys_unique(self.adapters@)
        &&& forall|i: int| 0 <= i < self.adapters@.len() ==> (#[trigger] self.adapters@[i]).1.wf()
        &&& keys_unique(self.device_info@)
        &&& forall|i: int| 0 <= i < self.device_info@.len() ==> (#[trigger] self.device_info@[i]).1.wf()
    }

    /// Node of the adapter named `a`.
    pub open spec fn adapter_of(&self, a: Seq<char>) -> Option<AdapterNode> {
        lookup(self.adapters@, a)
    }

    /// Value `v` of the adapter named `a`.
    pub open spec fn adapter_value(&self, a: Seq<char>, v: Seq<char>) -> Option<RegValue> {
        match self.adapter_of(a) {
            Some(n) => lookup(n.values@, v),
            None => None,
        }
    }

    /// Child node `d` of the adapter named `a`.
    pub open spec fn device_node(&self, a: Seq<char>, d: Seq<char>) -> Option<RegNode> {
        match self.adapter_of(a) {
            Some(n) => lookup(n.devices@, d),
            None => None,
        }
    }

    /// Value `v` of child node `d` of the adapter named `a`.
    pub open spec fn device_value(&self, a: Seq<char>, d: Seq<char>, v: Seq<char>) -> Option<RegValue> {
        match self.device_node(a, d) {
            Some(n) => lookup(n.values@, v),
            None => None,
        }
    }

    /// Information node of the device named `d`.
    pub open spec fn info_node(&self, d: Seq<char>) -> Option<RegNode> {
        lookup(self.device_info@, d)
    }

    /// Sets value `name` of the adapter named `a`.
    pub fn set_adapter_value(&mut self, a: &String, name: String, val: RegValue)
        requires
            old(self).adapter_of(a@) is Some,
        ensures
            old(self).wf() ==> final(self).wf(),
            final(self).adapter_of(a@) is Some,
            final(self).adapter_value(a@, name@) == Some(val),
            forall|v: Seq<char>| v != name@ ==> #[trigger] final(self).adapter_value(a@, v)
                == old(self).adapter_value(a@, v),
            forall|d: Seq<char>| #[trigger] final(self).device_node(a@, d) == old(self).device_node(a@, d),
            forall|a2: Seq<char>| a2 != a@ ==> #[trigger] final(self).adapter_of(a2)
                == old(self).adapter_of(a2),
            final(self).device_info == old(self).device_info,
            forall|x: Seq<char>| #[trigger] final(self).info_node(x) == old(self).info_node(x),
    {
        let ghost self_old = *self;
        let ghost old_adapters = self.adapters@;
        let mut node = extract_str(&mut self.adapters, a).unwrap();
        let ghost old_node = node;
        let ghost old_values = node.values@;
        put_str(&mut node.values, name, val);
        let ghost new_node = node;
        put_str(&mut self.adapters, a.clone(), node);
        proof {
            if self_old.wf() {
                lemma_lookup_elem(old_adapters, a@);
                let i = choose|i: int| 0 <= i < old_adapters.len() && (#[trigger] old_adapters[i]).1 == old_node;
                assert(old_node.wf());
                lemma_put_unique(old_values, new_node.values@.last());
                assert(new_node.values@.drop_last() == without(old_values, name@));
                assert(new_node.wf());
                lemma_replace(old_adapters, a@, self.adapters@.last(), |n: AdapterNode| n.wf());
                assert(self.adapters@.drop_last() == without(without(old_adapters, a@), a@));
                assert(self.adapters@ =~= without(without(old_adapters, a@), a@).push(self.adapters@.last()));
            }
            assert forall|x: Seq<char>| #[trigger] lookup(self.adapters@, x) == (if x == a@ {
                Some(new_node)
            } else {
                lookup(old_adapters, x)
            }) by {
                lemma_put_lookup(without(old_adapters, a@), self.adapters@.last(), x);
                lemma_lookup_without(old_adapters, a@, x);
            }
            assert forall|x: Seq<char>| #[trigger] lookup(new_node.values@, x) == (if x == name@ {
                Some(val)
            } else {
                lookup(old_values, x)
            }) by {
                lemma_put_lookup(old_values, new_node.values@.last(), x);
            }
        }
    }

    /// Takes out value `name` of the adapter named `a`.
    pub fn take_adapter_value(&mut self, a: &String, name: &String) -> (r: Option<RegValue>)
        requires
            old(self).adapter_of(a@) is Some,
        ensures
            old(self).wf() ==> final(self).wf(),
            r == old(self).adapter_value(a@, name@),
            final(self).adapter_of(a@) is Some,
            final(self).adapter_value(a@, name@) is None,
            forall|v: Seq<char>| v != name@ ==> #[trigger] final(self).adapter_value(a@, v)
                == old(self).adapter_value(a@, v),
            forall|d: Seq<char>| #[trigger] final(self).device_node(a@, d) == old(self).device_node(a@, d),
            forall|a2: Seq<char>| a2 != a@ ==> #[trigger] final(self).adapter_of(a2)
                == old(self).adapter_of(a2),
            final(self).device_info == old(self).device_info,
            forall|x: Seq<char>| #[trigger] final(self).info_node(x) == old(self).info_node(x),
    {
        let ghost self_old = *self;
        let ghost old_adapters = self.adapters@;
        let mut node = extract_str(&mut self.adapters, a).unwrap();
        let ghost old_node = node;
        let ghost old_values = node.values@;
        let r = extract_str(&mut node.values, name);
        let ghost new_node = node;
        put_str(&mut self.adapters, a.clone(), node);
        proof {
            if self_old.wf() {
                lemma_lookup_elem(old_adapters, a@);
                let i = choose|i: int| 0 <= i < old_adapters.len() && (#[trigger] old_adapters[i]).1 == old_node;
                assert(old_node.wf());
                lemma_without_unique(old_values, name@);
                assert(new_node.wf());
                lemma_replace(old_adapters, a@, self.adapters@.last(), |n: AdapterNode| n.wf());
                assert(self.adapters@.drop_last() == without(without(old_adapters, a@), a@));
                assert(self.adapters@ =~= without(without(old_adapters, a@), a@).push(self.adapters@.last()));
            }
            assert forall|x: Seq<char>| #[trigger] lookup(self.adapters@, x) == (if x == a@ {
                Some(new_node)
            } else {
                lookup(old_adapters, x)
            }) by {
                lemma_put_lookup(without(old_adapters, a@), self.adapters@.last(), x);
                lemma_lookup_without(old_adapters, a@, x);
            }
            assert forall|x: Seq<char>| #[trigger] lookup(new_node.values@, x) == (if x == name@ {
                None
            } else {
                lookup(old_values, x)
            }) by {
                lemma_lookup_without(old_values, name@, x);
            }
        }
        r
    }

    /// Sets value `name` of child node `d` of the adapter named `a`.
    pub fn set_device_value(&mut self, a: &String, d: &String, name: String, val: RegValue)
        requires
            old(self).device_node(a@, d@) is Some,
        ensures
            old(self).wf() ==> final(self).wf(),
            final(self).device_node(a@, d@) is Some,
            final(self).device_value(a@, d@, name@) == Some(val),
            forall|v: Seq<char>| v != name@ ==> #[trigger] final(self).device_value(a@, d@, v)
                == old(self).device_value(a@, d@, v),
            forall|d2: Seq<char>| d2 != d@ ==> #[trigger] final(self).device_node(a@, d2)
                == old(self).device_node(a@, d2),
            forall|v: Seq<char>| #[trigger] final(self).adapter_value(a@, v) == old(self).adapter_value(a@, v),
            forall|a2: Seq<char>| a2 != a@ ==> #[trigger] final(self).adapter_of(a2)
                == old(self).adapter_of(a2),
            final(self).device_info == old(self).device_info,
            forall|x: Seq<char>| #[trigger] final(self).info_node(x) == old(self).info_node(x),
    {
        let ghost self_old = *self;
        let ghost old_adapters = self.adapters@;
        let mut node = extract_str(&mut self.adapters, a).unwrap();
        let ghost old_node = node;
        let ghost old_devices = node.devices@;
        let mut dev = extract_str(&mut node.devices, d).unwrap();
        let ghost old_dev = dev;
        let ghost old_values = dev.values@;
        put_str(&mut dev.values, name, val);
        let ghost new_dev = dev;
        put_str(&mut node.devices, d.clone(), dev);
        let ghost new_node = node;
        put_str(&mut self.adapters, a.clone(), node);
        proof {
            if self_old.wf() {
                lemma_lookup_elem(old_adapters, a@);
                let i = choose|i: int| 0 <= i < old_adapters.len() && (#[trigger] old_adapters[i]).1 == old_node;
                assert(old_node.wf());
                lemma_lookup_elem(old_devices, d@);
                let j = choose|j: int| 0 <= j < old_devices.len() && (#[trigger] old_devices[j]).1 == old_dev;
                assert(old_dev.wf());
                lemma_put_unique(old_values, new_dev.values@.last());
                assert(new_dev.values@.drop_last() == without(old_values, name@));
                assert(new_dev.wf());
                lemma_replace(old_devices, d@, new_node.devices@.last(), |n: RegNode| n.wf());
                assert(new_node.devices@.drop_last() == without(without(old_devices, d@), d@));
                assert(new_node.devices@ =~= without(without(old_devices, d@), d@).push(new_node.devices@.last()));
                assert(new_node.wf());
                lemma_replace(old_adapters, a@, self.adapters@.last(), |n: AdapterNode| n.wf());
                assert(self.adapters@.drop_last() == without(without(old_adapters, a@), a@));
                assert(self.adapters@ =~= without(without(old_adapters, a@), a@).push(self.adapters@.last()));
            }
            assert forall|x: Seq<char>| #[trigger] lookup(self.adapters@, x) == (if x == a@ {
                Some(new_node)
            } else {
                lookup(old_adapters, x)
            }) by {
                lemma_put_lookup(without(old_adapters, a@), self.adapters@.last(), x);
                lemma_lookup_without(old_adapters, a@, x);
            }
            assert forall|x: Seq<char>| #[trigger] lookup(new_node.devices@, x) == (if x == d@ {
                Some(new_dev)
            } else {
                lookup(old_devices, x)
            }) by {
                lemma_put_lookup(without(old_devices, d@), new_node.devices@.last(), x);
                lemma_lookup_without(old_devices, d@, x);
            }
            assert forall|x: Seq<char>| #[trigger] lookup(new_dev.values@, x) == (if x == name@ {
                Some(val)
            } else {
                lookup(old_values, x)
            }) by {
                lemma_put_lookup(old_values, new_dev.values@.last(), x);
            }
        }
    }

    /// Moves child node `from` of the adapter named `a` to the name `to`,
    /// replacing what `to` held.
    pub fn move_device_node(&mut self, a: &String, from: &String, to: String)
        requires
            old(self).device_node(a@, from@) is Some,
            from@ != to@,
        ensures
            old(self).wf() ==> final(self).wf(),
            final(self).device_node(a@, to@) == old(self).device_node(a@, from@),
            final(self).device_node(a@, from@) is None,
            forall|d2: Seq<char>| d2 != from@ && d2 != to@ ==> #[trigger] final(self).device_node(a@, d2)
                == old(self).device_node(a@, d2),
            forall|v: Seq<char>| #[trigger] final(self).adapter_value(a@, v) == old(self).adapter_value(a@, v),
            forall|a2: Seq<char>| a2 != a@ ==> #[trigger] final(self).adapter_of(a2)
                == old(self).adapter_of(a2),
            final(self).device_info == old(self).device_info,
            forall|x: Seq<char>| #[trigger] final(self).info_node(x) == old(self).info_node(x),
    {
        let ghost self_old = *self;
        let ghost old_adapters = self.adapters@;
        let mut node = extract_str(&mut self.adapters, a).unwrap();
        let ghost old_node = node;
        let ghost old_devices = node.devices@;
        let dev = extract_str(&mut node.devices, from).unwrap();
        let ghost mid = node.devices@;
        put_str(&mut node.devices, to, dev);
        let ghost new_node = node;
        put_str(&mut self.adapters, a.clone(), node);
        proof {
            if self_old.wf() {
                lemma_lookup_elem(old_adapters, a@);
                let i = choose|i: int| 0 <= i < old_adapters.len() && (#[trigger] old_adapters[i]).1 == old_node;
                assert(old_node.wf());
                lemma_lookup_elem(old_devices, from@);
                let j = choose|j: int| 0 <= j < old_devices.len() && (#[trigger] old_devices[j]).1 == dev;
                assert(dev.wf());
                lemma_replace(old_devices, from@, new_node.devices@.last(), |n: RegNode| n.wf());
                assert(new_node.devices@.drop_last() == without(without(old_devices, from@), new_node.devices@.last().0@));
                assert(new_node.devices@ =~= without(without(old_devices, from@), new_node.devices@.last().0@).push(new_node.devices@.last()));
                assert(new_node.wf());
                lemma_replace(old_adapters, a@, self.adapters@.last(), |n: AdapterNode| n.wf());
                assert(self.adapters@.drop_last() == without(without(old_adapters, a@), a@));
                assert(self.adapters@ =~= without(without(old_adapters, a@), a@).push(self.adapters@.last()));
            }
            assert forall|x: Seq<char>| #[trigger] lookup(self.adapters@, x) == (if x == a@ {
                Some(new_node)
            } else {
                lookup(old_adapters, x)
            }) by {
                lemma_put_lookup(without(old_adapters, a@), self.adapters@.last(), x);
                lemma_lookup_without(old_adapters, a@, x);
            }
            assert forall|x: Seq<char>| #[trigger] lookup(new_node.devices@, x) == (if x == to@ {
                Some(dev)
            } else if x == from@ {
                None
            } else {
                lookup(old_devices, x)
            }) by {
                lemma_put_lookup(mid, new_node.devices@.last(), x);
                lemma_lookup_without(old_devices, from@, x);
            }
        }
    }

    /// Moves information node `from` to the name `to`, unless `to` exists:
    /// then `to` is kept as it is and `from` is only removed.
    pub fn move_info_node(&mut self, from: &String, to: String)
        requires
            old(self).info_node(from@) is Some,
            from@ != to@,
        ensures
            old(self).wf() ==> final(self).wf(),
            final(self).info_node(to@) == (if old(self).info_node(to@) is Some {
                old(self).info_node(to@)
            } else {
                old(self).info_node(from@)
            }),
            final(self).info_node(from@) is None,
            forall|d2: Seq<char>| d2 != from@ && d2 != to@ ==> #[trigger] final(self).info_node(d2)
                == old(self).info_node(d2),
            final(self).adapters == old(self).adapters,
            forall|a2: Seq<char>| #[trigger] final(self).adapter_of(a2) == old(self).adapter_of(a2),
            forall|a2: Seq<char>, v: Seq<char>| #[trigger] final(self).adapter_value(a2, v) == old(self).adapter_value(a2, v),
            forall|a2: Seq<char>, x: Seq<char>| #[trigger] final(self).device_node(a2, x) == old(self).device_node(a2, x),
    {
        let ghost self_old = *self;
        let ghost old_info = self.device_info@;
        let node = extract_str(&mut self.device_info, from).unwrap();
        let ghost mid = self.device_info@;
        let ghost moved = (to, node);
        proof {
            if self_old.wf() {
                lemma_lookup_elem(old_info, from@);
                let j = choose|j: int| 0 <= j < old_info.len() && (#[trigger] old_info[j]).1 == node;
                assert(node.wf());
                lemma_replace(old_info, from@, moved, |n: RegNode| n.wf());
            }
            assert forall|x: Seq<char>| #[trigger] lookup(mid, x) == (if x == from@ {
                None
            } else {
                lookup(old_info, x)
            }) by {
                lemma_lookup_without(old_info, from@, x);
            }
        }
        let exists = get_str(&self.device_info, &to).is_some();
        if !exists {
            put_str(&mut self.device_info, to, node);
            proof {
                assert(self.device_info@.drop_last() == without(mid, moved.0@));
                assert(self.device_info@ =~= without(without(old_info, from@), moved.0@).push(moved));
                assert forall|x: Seq<char>| #[trigger] lookup(self.device_info@, x) == (if x == to@ {
                    Some(node)
                } else {
                    lookup(mid, x)
                }) by {
                    lemma_put_lookup(mid, self.device_info@.last(), x);
                }
            }
        }
    }
}

/// Setting a key and then reading any key.
pub proof fn lemma_put_lookup<K: View, V>(s: Seq<(K, V)>, e: (K, V), x: K::V)
    ensures
        lookup(without(s, e.0@).push(e), x) == (if x == e.0@ { Some(e.1) } else { lookup(s, x) }),
{
    lemma_lookup_push(without(s, e.0@), e, x);
    lemma_lookup_without(s, e.0@, x);
}

/// Relies on String::from_utf8: the text that valid UTF-8 bytes encode.
#[verifier::external_body]
pub(crate) fn utf8_text(bytes: Vec<u8>) -> (r: Option<String>)
    ensures
        r is Some <==> valid_utf8(bytes@),
        r matches Some(s) ==> s@ == decode_utf8(bytes@),
{
    String::from_utf8(bytes).ok()
}

/// Display name of the device whose compact name is `d`, as its information
/// node holds it.
pub open spec fn device_name_of(s: BtStore, d: Seq<char>) -> Option<Seq<char>> {
    match s.info_node(d) {
        Some(n) => match lookup(n.values@, "Name"@) {
            Some(v) => if v.vtype == RegType::Binary && valid_utf8(v.bytes@) {
                Some(decode_utf8(v.bytes@))
            } else {
                None
            },
            None => None,
        },
        None => None,
    }
}

/// Reads the display name of a device: the binary `Name` value of its
/// information node, as UTF-8.
pub fn get_device_name(store: &BtStore, device: &[u8]) -> (r: Result<String, MigrateError>)
    ensures
        device@.len() != 6 ==> r == Err::<String, MigrateError>(MigrateError::InvalidAddress),
        device@.len() == 6 ==> match r {
            Ok(n) => device_name_of(*store, hex_encode(device@)) == Some(n@),
            Err(_) => device_name_of(*store, hex_encode(device@)) is None,
        },
{
    let key = format_mac_win(device)?;
    let node = match get_str(&store.device_info, &key) {
        Some(n) => n,
        None => return Err(MigrateError::NotFound),
    };
    let name_key = String::from_str("Name");
    let value = match get_str(&node.values, &name_key) {
        Some(v) => v,
        None => return Err(MigrateError::NotFound),
    };
    if value.vtype != RegType::Binary {
        return Err(MigrateError::UnexpectedExistingState);
    }
    let bytes = copy_bytes(value.bytes.as_slice());
    match utf8_text(bytes) {
        Some(s) => Ok(s),
        None => Err(MigrateError::MalformedRecord { entry: key }),
    }
}

/// Path of the pairing keys tree, under the local machine hive.
pub const BT_KEYS_REG_PATH: &'static str = "SYSTEM\\CurrentControlSet\\Services\\BTHPORT\\Parameters\\Keys";

/// Path of the device information tree, under the local machine hive.
pub const DEVICE_INFO_REG_PATH: &'static str = "SYSTEM\\CurrentControlSet\\Services\\BTHPORT\\Parameters\\Devices";

/// Path of a device's information node.
pub fn get_device_info_reg_key_path(device: &[u8]) -> (r: Result<String, MigrateError>)
    ensures
        r is Ok <==> device@.len() == 6,
        r matches Ok(p) ==> p@ == DEVICE_INFO_REG_PATH@ + "\\"@ + hex_encode(device@),
        r matches Err(e) ==> e == MigrateError::InvalidAddress,
{
    let name = format_mac_win(device)?;
    let mut path = String::from_str(DEVICE_INFO_REG_PATH);
    path.append("\\");
    path.append(name.as_str());
    Ok(path)
}

/// Path of an adapter's key node, or of a BLE device's node under it.
pub fn bt_reg_key_path(adapter: &[u8], device: Option<&[u8]>) -> (r: Result<String, MigrateError>)
    ensures
        r is Ok <==> (adapter@.len() == 6 && match device {
            Some(d) => d@.len() == 6,
            None => true,
        }),
        r matches Ok(p) ==> p@ == BT_KEYS_REG_PATH@ + "\\"@ + hex_encode(adapter@) + match device {
            Some(d) => "\\"@ + hex_encode(d@),
            None => Seq::<char>::empty(),
        },
        r matches Err(e) ==> e == MigrateError::InvalidAddress,
{
    let a = format_mac_win(adapter)?;
    let mut path = String::from_str(BT_KEYS_REG_PATH);
    path.append("\\");
    path.append(a.as_str());
    match device {
        Some(d) => {
            let dn = format_mac_win(d)?;
            path.append("\\");
            path.append(dn.as_str());
            assert(path@ =~= BT_KEYS_REG_PATH@ + "\\"@ + hex_encode(adapter@) + ("\\"@ + hex_encode(d@)));
        },
        None => {
            assert(path@ =~= BT_KEYS_REG_PATH@ + "\\"@ + hex_encode(adapter@) + Seq::<char>::empty());
        },
    }
    Ok(path)
}

} // verus!
