//! Reading a snapshot out of the source store: one directory per adapter,
//! one per device, each device with an INI-style `info` record.
use vstd::prelude::*;
use vstd::utf8::{decode_utf8, valid_utf8};

use crate::error::MigrateError;
use crate::keyed::{keys_unique, lemma_put_unique, lemma_without_elems, lookup, lemma_lookup_push, lemma_lookup_without};
use crate::mac::{colon_decode, colon_valid, from_hex, hex_decodable, hex_decode, read_mac};
use crate::store::utf8_text;
use crate::model::{
    put_mac, Adapter, BLEDeviceCreds, BytesAsMACWrapper, DataDump, Device, DeviceCreds,
    LongTermKey, RegularDeviceCreds,
};

verus! {

/// Sections of an INI document: section name to its keys and their values.
pub type IniMap = Map<Seq<char>, Map<Seq<char>, Seq<char>>>;

/// A parsed INI document, carried through unread.
#[verifier::external_type_specification]
#[verifier::external_body]
pub struct ExIni(ini::Ini);

/// Error of the INI parser, carried through unread.
#[verifier::external_type_specification]
#[verifier::external_body]
pub struct ExParseError(ini::ParseError);

/// What the INI parser makes of a text: `None` where it refuses it; else, for
/// each named section the first of that name, and in it each key's first value.
pub uninterp spec fn ini_parse(s: Seq<char>) -> Option<IniMap>;

/// The named sections that a parsed INI document holds, as `ini_parse` gives them.
pub uninterp spec fn ini_sections(i: ini::Ini) -> IniMap;

/// Relies on ini::Ini::load_from_str: parses INI text with the default options.
#[verifier::external_body]
fn load_ini(text: &str) -> (r: Result<ini::Ini, ini::ParseError>)
    ensures
        r is Ok <==> ini_parse(text@) is Some,
        r matches Ok(i) ==> ini_parse(text@) == Some(ini_sections(i)),
{
    ini::Ini::load_from_str(text)
}

/// Relies on ini::Ini::section: whether a section of that name exists.
#[verifier::external_body]
fn ini_has_section(ini: &ini::Ini, name: &str) -> (r: bool)
    ensures
        r == ini_sections(*ini).contains_key(name@),
{
    ini.section(Some(name)).is_some()
}

/// Relies on ini::Ini::get_from: the first value of `key` in the first
/// section named `section`.
#[verifier::external_body]
fn ini_get(ini: &ini::Ini, section: &str, key: &str) -> (r: Option<String>)
    ensures
        r is Some <==> (ini_sections(*ini).contains_key(section@) && ini_sections(
            *ini,
        )[section@].contains_key(key@)),
        r matches Some(v) ==> v@ == ini_sections(*ini)[section@][key@],
{
    ini.get_from(Some(section), key).map(String::from)
}

/// Non-empty run of decimal digits.
pub open spec fn is_digits(s: Seq<char>) -> bool {
    &&& s.len() > 0
    &&& forall|i: int| 0 <= i < s.len() ==> '0' <= #[trigger] s[i] && s[i] <= '9'
}

/// Value of a run of decimal digits.
pub open spec fn digits_value(s: Seq<char>) -> int
    decreases s.len(),
{
    if s.len() == 0 {
        0
    } else {
        digits_value(s.drop_last()) * 10 + (s.last() as int - '0' as int)
    }
}

/// Decimal text of an unsigned integer: digits after an optional `+`.
pub open spec fn is_decimal(s: Seq<char>) -> bool {
    is_digits(s) || (s.len() > 0 && s[0] == '+' && is_digits(s.drop_first()))
}

/// Value of decimal text.
pub open spec fn decimal_value(s: Seq<char>) -> int {
    if s.len() > 0 && s[0] == '+' {
        digits_value(s.drop_first())
    } else {
        digits_value(s)
    }
}

/// Relies on <u64 as FromStr>::from_str: digits after an optional `+`, with
/// a value that fits; anything else (blank, spaces, a sign `-`) is refused.
#[verifier::external_body]
pub(crate) fn parse_u64(s: &str) -> (r: Option<u64>)
    ensures
        r is Some <==> (is_decimal(s@) && decimal_value(s@) <= u64::MAX),
        r matches Some(v) ==> v == decimal_value(s@),
{
    s.parse::<u64>().ok()
}

/// A 16-byte key written as hexadecimal under `k`.
pub open spec fn key_field(p: Map<Seq<char>, Seq<char>>, k: Seq<char>) -> bool {
    p.contains_key(k) && hex_decodable(p[k]) && p[k].len() == 32
}

/// A decimal number of at most `max` under `k`.
pub open spec fn num_field(p: Map<Seq<char>, Seq<char>>, k: Seq<char>, max: int) -> bool {
    p.contains_key(k) && is_decimal(p[k]) && decimal_value(p[k]) <= max
}

/// A long-term key section that can be read.
pub open spec fn ltk_valid(p: Map<Seq<char>, Seq<char>>) -> bool {
    &&& key_field(p, "Key"@)
    &&& num_field(p, "EncSize"@, u16::MAX as int)
    &&& num_field(p, "EDiv"@, u32::MAX as int)
    &&& num_field(p, "Rand"@, u64::MAX as int)
}

/// `l` holds what the long-term key section `p` says.
pub open spec fn ltk_matches(l: LongTermKey, p: Map<Seq<char>, Seq<char>>) -> bool {
    &&& l.key@ == hex_decode(p["Key"@])
    &&& l.enc_size == decimal_value(p["EncSize"@])
    &&& l.ediv == decimal_value(p["EDiv"@])
    &&& l.rand == decimal_value(p["Rand"@])
}

/// An optional long-term key section: absent, or readable.
pub open spec fn opt_ltk_valid(m: IniMap, name: Seq<char>) -> bool {
    m.contains_key(name) ==> ltk_valid(m[name])
}

/// `o` is the optional long-term key section `name` of `m`.
pub open spec fn opt_ltk_matches(o: Option<LongTermKey>, m: IniMap, name: Seq<char>) -> bool {
    match o {
        Some(l) => m.contains_key(name) && ltk_matches(l, m[name]),
        None => !m.contains_key(name),
    }
}

/// Key material that can be read: a link key, or else an identity resolving
/// key and readable long-term keys.
pub open spec fn creds_valid(m: IniMap) -> bool {
    if m.contains_key("LinkKey"@) {
        key_field(m["LinkKey"@], "Key"@)
    } else {
        &&& m.contains_key("IdentityResolvingKey"@)
        &&& key_field(m["IdentityResolvingKey"@], "Key"@)
        &&& opt_ltk_valid(m, "LongTermKey"@)
        &&& opt_ltk_valid(m, "PeripheralLongTermKey"@)
    }
}

/// `c` is the key material that the record `m` holds.
pub open spec fn creds_match(c: DeviceCreds, m: IniMap) -> bool {
    match c {
        DeviceCreds::Regular(r) => m.contains_key("LinkKey"@) && r.link_key@ == hex_decode(
            m["LinkKey"@]["Key"@],
        ),
        DeviceCreds::BLE(b) => {
            &&& !m.contains_key("LinkKey"@)
            &&& b.identity_resolving_key@ == hex_decode(m["IdentityResolvingKey"@]["Key"@])
            &&& opt_ltk_matches(b.long_term_key, m, "LongTermKey"@)
            &&& opt_ltk_matches(b.peripheral_long_term_key, m, "PeripheralLongTermKey"@)
        },
    }
}

/// A device record that can be read: a name and key material.
pub open spec fn device_valid(m: IniMap) -> bool {
    &&& m.contains_key("General"@)
    &&& m["General"@].contains_key("Name"@)
    &&& creds_valid(m)
}

/// `d` is the device that the record `m` describes.
pub open spec fn device_matches(d: Device, m: IniMap) -> bool {
    d.name@ == m["General"@]["Name"@] && creds_match(d.creds, m)
}

fn malformed() -> (e: MigrateError)
    ensures
        e is MalformedRecord,
{
    MigrateError::MalformedRecord { entry: String::new() }
}

fn read_key(ini: &ini::Ini, section: &str) -> (r: Result<Vec<u8>, MigrateError>)
    ensures
        r is Ok <==> (ini_sections(*ini).contains_key(section@) && key_field(
            ini_sections(*ini)[section@],
            "Key"@,
        )),
        r matches Ok(v) ==> v@ == hex_decode(ini_sections(*ini)[section@]["Key"@]),
        r matches Err(e) ==> e is MalformedRecord,
{
    let hex_text = match ini_get(ini, section, "Key") {
        Some(t) => t,
        None => return Err(malformed()),
    };
    let n: usize = hex_text.as_str().unicode_len();
    if n != 32 {
        return Err(malformed());
    }
    match from_hex(hex_text.as_str()) {
        Ok(v) => Ok(v),
        Err(_) => Err(malformed()),
    }
}

fn read_num(ini: &ini::Ini, section: &str, key: &str, max: u64) -> (r: Result<u64, MigrateError>)
    requires
        ini_sections(*ini).contains_key(section@),
    ensures
        r is Ok <==> num_field(ini_sections(*ini)[section@], key@, max as int),
        r matches Ok(v) ==> v == decimal_value(ini_sections(*ini)[section@][key@]) && v <= max,
        r matches Err(e) ==> e is MalformedRecord,
{
    let text = match ini_get(ini, section, key) {
        Some(t) => t,
        None => return Err(malformed()),
    };
    match parse_u64(text.as_str()) {
        Some(v) => {
            if v > max {
                Err(malformed())
            } else {
                Ok(v)
            }
        },
        None => Err(malformed()),
    }
}

/// Reads the long-term key section `section`.
fn dump_ltk(ini: &ini::Ini, section: &str) -> (r: Result<LongTermKey, MigrateError>)
    ensures
        r is Ok <==> (ini_sections(*ini).contains_key(section@) && ltk_valid(ini_sections(*ini)[section@])),
        r matches Ok(l) ==> ltk_matches(l, ini_sections(*ini)[section@]),
        r matches Err(e) ==> e is MalformedRecord,
{
    let key = read_key(ini, section)?;
    let enc_size = read_num(ini, section, "EncSize", 0xffff)?;
    let ediv = read_num(ini, section, "EDiv", 0xffff_ffff)?;
    let rand = read_num(ini, section, "Rand", 0xffff_ffff_ffff_ffff)?;
    Ok(LongTermKey { key, enc_size: enc_size as u32, ediv: ediv as u32, rand })
}

fn dump_opt_ltk(ini: &ini::Ini, section: &str) -> (r: Result<Option<LongTermKey>, MigrateError>)
    ensures
        r is Ok <==> opt_ltk_valid(ini_sections(*ini), section@),
        r matches Ok(o) ==> opt_ltk_matches(o, ini_sections(*ini), section@),
        r matches Err(e) ==> e is MalformedRecord,
{
    if ini_has_section(ini, section) {
        let l = dump_ltk(ini, section)?;
        Ok(Some(l))
    } else {
        Ok(None)
    }
}

/// Reads the link key of a classic device.
fn dump_regular_device_creds(ini: &ini::Ini) -> (r: Result<RegularDeviceCreds, MigrateError>)
    ensures
        r is Ok <==> (ini_sections(*ini).contains_key("LinkKey"@) && key_field(
            ini_sections(*ini)["LinkKey"@],
            "Key"@,
        )),
        r matches Ok(c) ==> c.link_key@ == hex_decode(ini_sections(*ini)["LinkKey"@]["Key"@]),
        r matches Err(e) ==> e is MalformedRecord,
{
    let link_key = read_key(ini, "LinkKey")?;
    Ok(RegularDeviceCreds { link_key })
}

/// Reads the identity resolving key and the long-term keys of a BLE device.
fn dump_ble_device_creds(ini: &ini::Ini) -> (r: Result<BLEDeviceCreds, MigrateError>)
    ensures
        r is Ok <==> ({
            let m = ini_sections(*ini);
            &&& m.contains_key("IdentityResolvingKey"@)
            &&& key_field(m["IdentityResolvingKey"@], "Key"@)
            &&& opt_ltk_valid(m, "LongTermKey"@)
            &&& opt_ltk_valid(m, "PeripheralLongTermKey"@)
        }),
        r matches Ok(b) ==> {
            let m = ini_sections(*ini);
            &&& b.identity_resolving_key@ == hex_decode(m["IdentityResolvingKey"@]["Key"@])
            &&& opt_ltk_matches(b.long_term_key, m, "LongTermKey"@)
            &&& opt_ltk_matches(b.peripheral_long_term_key, m, "PeripheralLongTermKey"@)
        },
        r matches Err(e) ==> e is MalformedRecord,
{
    let identity_resolving_key = read_key(ini, "IdentityResolvingKey")?;
    let long_term_key = dump_opt_ltk(ini, "LongTermKey")?;
    let peripheral_long_term_key = dump_opt_ltk(ini, "PeripheralLongTermKey")?;
    Ok(BLEDeviceCreds { identity_resolving_key, long_term_key, peripheral_long_term_key })
}

/// Reads the key material of a device: classic where a link key section is
/// present, BLE otherwise.
fn dump_device_creds(ini: &ini::Ini) -> (r: Result<DeviceCreds, MigrateError>)
    ensures
        r is Ok <==> creds_valid(ini_sections(*ini)),
        r matches Ok(c) ==> creds_match(c, ini_sections(*ini)),
        r matches Err(e) ==> e is MalformedRecord,
{
    if ini_has_section(ini, "LinkKey") {
        let c = dump_regular_device_creds(ini)?;
        Ok(DeviceCreds::Regular(c))
    } else {
        let c = dump_ble_device_creds(ini)?;
        Ok(DeviceCreds::BLE(c))
    }
}

/// Reads a device from its parsed record.
fn dump_device_ini(ini: &ini::Ini) -> (r: Result<Device, MigrateError>)
    ensures
        r is Ok <==> device_valid(ini_sections(*ini)),
        r matches Ok(d) ==> device_matches(d, ini_sections(*ini)),
        r matches Err(e) ==> e is MalformedRecord,
{
    let name = match ini_get(ini, "General", "Name") {
        Some(n) => n,
        None => return Err(malformed()),
    };
    let creds = dump_device_creds(ini)?;
    Ok(Device { name, creds })
}

/// A device record text that parses and can be read.
pub open spec fn device_text_valid(text: Seq<char>) -> bool {
    ini_parse(text) matches Some(m) && device_valid(m)
}

/// `e` is a malformed-record error naming the entry `name`.
pub open spec fn names_entry(e: MigrateError, name: Seq<char>) -> bool {
    e matches MigrateError::MalformedRecord { entry } && entry@ == name
}

/// The bytes of a record without a leading UTF-8 byte-order mark.
pub open spec fn without_bom(b: Seq<u8>) -> Seq<u8> {
    if b.len() >= 3 && b[0] == 0xef && b[1] == 0xbb && b[2] == 0xbf {
        b.subrange(3, b.len() as int)
    } else {
        b
    }
}

/// The text of a record's bytes, where they are UTF-8.
pub open spec fn record_text(b: Seq<u8>) -> Option<Seq<char>> {
    if valid_utf8(without_bom(b)) {
        Some(decode_utf8(without_bom(b)))
    } else {
        None
    }
}

/// A device record whose bytes are UTF-8 text that parses and can be read.
pub open spec fn device_bytes_valid(b: Seq<u8>) -> bool {
    record_text(b) matches Some(t) && device_text_valid(t)
}

/// The sections of a record given as bytes.
pub open spec fn record_sections(b: Seq<u8>) -> IniMap {
    ini_parse(record_text(b)->Some_0)->Some_0
}

fn strip_bom(b: &[u8]) -> (r: Vec<u8>)
    ensures
        r@ == without_bom(b@),
{
    let start: usize = if b.len() >= 3 && b[0] == 0xef && b[1] == 0xbb && b[2] == 0xbf {
        3
    } else {
        0
    };
    let mut out: Vec<u8> = Vec::new();
    let mut i: usize = start;
    while i < b.len()
        invariant
            start <= i <= b@.len(),
            out@ == b@.subrange(start as int, i as int),
        decreases b@.len() - i,
    {
        out.push(b[i]);
        i = i + 1;
        assert(out@ =~= b@.subrange(start as int, i as int));
    }
    if start == 0 {
        assert(out@ =~= b@);
    }
    out
}

/// Reads the device of entry `name` from the bytes of its record, which must
/// be UTF-8 (after a byte-order mark, if any); an error names the entry.
pub fn dump_device(name: &str, info: &[u8]) -> (r: Result<Device, MigrateError>)
    ensures
        r is Ok <==> device_bytes_valid(info@),
        r matches Ok(d) ==> device_matches(d, record_sections(info@)),
        r matches Err(e) ==> names_entry(e, name@),
{
    let parsed = match utf8_text(strip_bom(info)) {
        Some(text) => match load_ini(text.as_str()) {
            Ok(ini) => dump_device_ini(&ini),
            Err(_) => Err(malformed()),
        },
        None => Err(malformed()),
    };
    match parsed {
        Ok(d) => Ok(d),
        Err(_) => Err(MigrateError::MalformedRecord { entry: String::from_str(name) }),
    }
}

/// Entries of an adapter directory that are store bookkeeping, not devices.
pub open spec fn is_marker(n: Seq<char>) -> bool {
    n == "cache"@ || n == "settings"@
}

/// A device directory entry that extraction accepts: a marker, or an
/// address with a readable record.
pub open spec fn device_entry_ok(e: (String, Option<Vec<u8>>)) -> bool {
    is_marker(e.0@) || (colon_valid(e.0@) && (e.1 matches Some(t) && device_bytes_valid(t@)))
}

/// Entry `i` of `es` names a device, and no later entry names its address.
pub open spec fn last_device_entry(es: Seq<(String, Option<Vec<u8>>)>, i: int) -> bool {
    &&& !is_marker(es[i].0@)
    &&& forall|j: int|
        i < j < es.len() && !is_marker(#[trigger] es[j].0@) ==> colon_decode(es[j].0@)
            != colon_decode(es[i].0@)
}

/// `a` holds a device under each address that an entry names, read from the
/// record of the last entry that names it.
pub open spec fn adapter_built(a: Adapter, es: Seq<(String, Option<Vec<u8>>)>) -> bool {
    &&& forall|addr: Seq<u8>|
        #![trigger lookup(a.devices@, addr)]
        lookup(a.devices@, addr) is Some <==> exists|i: int|
            0 <= i < es.len() && !is_marker(es[i].0@) && colon_decode(#[trigger] es[i].0@)
                == addr
    &&& forall|i: int|
        0 <= i < es.len() && #[trigger] last_device_entry(es, i) ==> (lookup(a.devices@, colon_decode(es[i].0@)) matches Some(d)
            && device_matches(d, record_sections(es[i].1->Some_0@)))
}

/// `e` names the first entry of `es` that extraction refuses.
pub open spec fn names_first_bad_device(es: Seq<(String, Option<Vec<u8>>)>, e: MigrateError) -> bool {
    exists|i: int|
        0 <= i < es.len() && !device_entry_ok(#[trigger] es[i]) && (forall|j: int|
            0 <= j < i ==> device_entry_ok(es[j])) && names_entry(e, es[i].0@)
}

fn is_marker_name(name: &String) -> (r: bool)
    ensures
        r == is_marker(name@),
{
    let cache = String::from_str("cache");
    let settings = String::from_str("settings");
    *name == cache || *name == settings
}

/// Reads an adapter from its directory entries: each entry's name and the
/// text of its `info` record, if it has one. Markers are skipped; any other
/// entry must be an address with a readable record, else the error names it.
pub fn dump_adapter(entries: &Vec<(String, Option<Vec<u8>>)>) -> (r: Result<Adapter, MigrateError>)
    ensures
        r is Ok <==> forall|i: int| 0 <= i < entries@.len() ==> device_entry_ok(#[trigger] entries@[i]),
        r matches Ok(a) ==> adapter_built(a, entries@) && a.wf(),
        r matches Err(e) ==> names_first_bad_device(entries@, e),
{
    let ghost es = entries@;
    let mut devices: Vec<(BytesAsMACWrapper, Device)> = Vec::new();
    let mut k: usize = 0;
    while k < entries.len()
        invariant
            es == entries@,
            k <= es.len(),
            forall|i: int| 0 <= i < k ==> device_entry_ok(#[trigger] es[i]),
            forall|addr: Seq<u8>|
                #![trigger lookup(devices@, addr)]
                lookup(devices@, addr) is Some <==> exists|i: int|
                    0 <= i < k && !is_marker(es[i].0@) && colon_decode(#[trigger] es[i].0@)
                        == addr,
            forall|i: int|
                0 <= i < k && #[trigger] last_device_entry(es.subrange(0, k as int), i)
                    ==> (lookup(devices@, colon_decode(es[i].0@)) matches Some(d)
                    && device_matches(d, record_sections(es[i].1->Some_0@))),
            keys_unique(devices@),
        decreases es.len() - k,
    {
        let name = &entries[k].0;
        if !is_marker_name(name) {
            let addr = match read_mac(name.as_str()) {
                Ok(a) => a,
                Err(_) => {
                    let e = MigrateError::MalformedRecord { entry: name.clone() };
                    assert(!device_entry_ok(es[k as int]) && names_entry(e, es[k as int].0@));
                    return Err(e);
                },
            };
            let text = match &entries[k].1 {
                Some(t) => t,
                None => {
                    let e = MigrateError::MalformedRecord { entry: name.clone() };
                    assert(!device_entry_ok(es[k as int]) && names_entry(e, es[k as int].0@));
                    return Err(e);
                },
            };
            let device = match dump_device(name.as_str(), text.as_slice()) {
                Ok(d) => d,
                Err(e) => {
                    assert(!device_entry_ok(es[k as int]) && names_entry(e, es[k as int].0@));
                    return Err(e);
                },
            };
            let ghost old_devices = devices@;
            let ghost dk = colon_decode(es[k as int].0@);
            let ghost dv = device;
            put_mac(&mut devices, BytesAsMACWrapper(addr), device);
            proof {
                lemma_put_unique(old_devices, devices@.last());
                assert(devices@.drop_last() == crate::keyed::without(old_devices, dk));
                assert forall|a2: Seq<u8>|
                    #![trigger lookup(devices@, a2)]
                    lookup(devices@, a2) == (if a2 == dk { Some(dv) } else { lookup(old_devices, a2) }) by {
                    lemma_lookup_without(old_devices, dk, a2);
                    lemma_lookup_push(crate::keyed::without(old_devices, dk), devices@.last(), a2);
                    assert(devices@.drop_last() == crate::keyed::without(old_devices, dk));
                }
                assert forall|a2: Seq<u8>|
                    #![trigger lookup(devices@, a2)]
                    lookup(devices@, a2) is Some <==> exists|i: int|
                        0 <= i < k + 1 && !is_marker(es[i].0@) && colon_decode(#[trigger] es[i].0@)
                            == a2 by {
                    if a2 == dk {
                        assert(colon_decode(es[k as int].0@) == a2);
                    }
                }
                assert forall|i: int|
                    0 <= i < k + 1 && #[trigger] last_device_entry(es.subrange(0, k + 1), i)
                        implies (lookup(devices@, colon_decode(es[i].0@)) matches Some(d)
                        && device_matches(d, record_sections(es[i].1->Some_0@))) by {
                    if i < k {
                        assert(es.subrange(0, k + 1)[k as int] == es[k as int]);
                        assert(last_device_entry(es.subrange(0, k as int), i)) by {
                            assert forall|j: int|
                                i < j < k && !is_marker(#[trigger] es.subrange(0, k as int)[j].0@)
                                    implies colon_decode(es.subrange(0, k as int)[j].0@)
                                    != colon_decode(es.subrange(0, k as int)[i].0@) by {
                                assert(es.subrange(0, k + 1)[j] == es[j]);
                            }
                        }
                    }
                }
            }
        } else {
            proof {
                assert forall|i: int|
                    0 <= i < k + 1 && #[trigger] last_device_entry(es.subrange(0, k + 1), i)
                        implies (lookup(devices@, colon_decode(es[i].0@)) matches Some(d)
                        && device_matches(d, record_sections(es[i].1->Some_0@))) by {
                    assert(last_device_entry(es.subrange(0, k as int), i)) by {
                        assert forall|j: int|
                            i < j < k && !is_marker(#[trigger] es.subrange(0, k as int)[j].0@)
                                implies colon_decode(es.subrange(0, k as int)[j].0@)
                                != colon_decode(es.subrange(0, k as int)[i].0@) by {
                            assert(es.subrange(0, k + 1)[j] == es[j]);
                        }
                    }
                }
            }
        }
        k = k + 1;
    }
    assert(es.subrange(0, es.len() as int) =~= es);
    Ok(Adapter { devices })
}

/// Directory entries of one adapter: the device entries' names and records.
pub type AdapterEntries = Vec<(String, Option<Vec<u8>>)>;

/// An adapter entry that extraction accepts: an address whose device
/// entries are all accepted.
pub open spec fn adapter_entry_ok(e: (String, AdapterEntries)) -> bool {
    &&& colon_valid(e.0@)
    &&& forall|i: int| 0 <= i < e.1@.len() ==> device_entry_ok(#[trigger] e.1@[i])
}

/// No entry after `i` names the address of entry `i`.
pub open spec fn last_adapter_entry(es: Seq<(String, AdapterEntries)>, i: int) -> bool {
    forall|j: int| i < j < es.len() ==> colon_decode(#[trigger] es[j].0@) != colon_decode(es[i].0@)
}

/// `d` holds an adapter under each address that an entry names, built from
/// the device entries of the last entry that names it.
pub open spec fn dump_built(d: DataDump, es: Seq<(String, AdapterEntries)>) -> bool {
    &&& forall|addr: Seq<u8>|
        #![trigger lookup(d.adapters@, addr)]
        lookup(d.adapters@, addr) is Some <==> exists|i: int|
            0 <= i < es.len() && colon_decode(#[trigger] es[i].0@) == addr
    &&& forall|i: int|
        0 <= i < es.len() && #[trigger] last_adapter_entry(es, i) ==> (lookup(
            d.adapters@,
            colon_decode(es[i].0@),
        ) matches Some(a) && adapter_built(a, es[i].1@))
}

/// `e` names the first entry that extraction refuses: the adapter entry
/// itself where its name is no address, else the first refused device entry
/// under it.
pub open spec fn names_first_bad_adapter(es: Seq<(String, AdapterEntries)>, e: MigrateError) -> bool {
    exists|i: int|
        0 <= i < es.len() && !adapter_entry_ok(#[trigger] es[i]) && (forall|j: int|
            0 <= j < i ==> adapter_entry_ok(es[j])) && if !colon_valid(es[i].0@) {
            names_entry(e, es[i].0@)
        } else {
            names_first_bad_device(es[i].1@, e)
        }
}

/// Reads a whole snapshot from the adapter directory entries, each with the
/// entries of its own directory. Any entry that cannot be read fails the
/// whole snapshot, and the error names it.
pub fn dump_all(entries: &Vec<(String, AdapterEntries)>) -> (r: Result<DataDump, MigrateError>)
    ensures
        r is Ok <==> forall|i: int| 0 <= i < entries@.len() ==> adapter_entry_ok(#[trigger] entries@[i]),
        r matches Ok(d) ==> dump_built(d, entries@) && d.wf(),
        r matches Err(e) ==> names_first_bad_adapter(entries@, e),
{
    let ghost es = entries@;
    let mut adapters: Vec<(BytesAsMACWrapper, Adapter)> = Vec::new();
    let mut k: usize = 0;
    while k < entries.len()
        invariant
            es == entries@,
            k <= es.len(),
            forall|i: int| 0 <= i < k ==> adapter_entry_ok(#[trigger] es[i]),
            forall|addr: Seq<u8>|
                #![trigger lookup(adapters@, addr)]
                lookup(adapters@, addr) is Some <==> exists|i: int|
                    0 <= i < k && colon_decode(#[trigger] es[i].0@) == addr,
            forall|i: int|
                0 <= i < k && #[trigger] last_adapter_entry(es.subrange(0, k as int), i)
                    ==> (lookup(adapters@, colon_decode(es[i].0@)) matches Some(a)
                    && adapter_built(a, es[i].1@)),
            keys_unique(adapters@),
            forall|i: int| 0 <= i < adapters@.len() ==> (#[trigger] adapters@[i]).1.wf(),
        decreases es.len() - k,
    {
        let name = &entries[k].0;
        let addr = match read_mac(name.as_str()) {
            Ok(a) => a,
            Err(_) => {
                let e = MigrateError::MalformedRecord { entry: name.clone() };
                assert(!adapter_entry_ok(es[k as int]) && names_entry(e, es[k as int].0@));
                return Err(e);
            },
        };
        let adapter = match dump_adapter(&entries[k].1) {
            Ok(a) => a,
            Err(e) => {
                assert(!adapter_entry_ok(es[k as int]));
                return Err(e);
            },
        };
        let ghost old_adapters = adapters@;
        let ghost dk = colon_decode(es[k as int].0@);
        let ghost av = adapter;
        put_mac(&mut adapters, BytesAsMACWrapper(addr), adapter);
        proof {
            lemma_put_unique(old_adapters, adapters@.last());
            lemma_without_elems(old_adapters, dk);
            assert(adapters@.drop_last() == crate::keyed::without(old_adapters, dk));
            assert forall|i: int| 0 <= i < adapters@.len() implies (#[trigger] adapters@[i]).1.wf() by {
                if i < adapters@.len() - 1 {
                    assert(adapters@[i] == crate::keyed::without(old_adapters, dk)[i]);
                    assert(old_adapters.contains(adapters@[i]));
                }
            }
            assert forall|a2: Seq<u8>|
                #![trigger lookup(adapters@, a2)]
                lookup(adapters@, a2) == (if a2 == dk { Some(av) } else { lookup(old_adapters, a2) }) by {
                lemma_lookup_without(old_adapters, dk, a2);
                lemma_lookup_push(crate::keyed::without(old_adapters, dk), adapters@.last(), a2);
                assert(adapters@.drop_last() == crate::keyed::without(old_adapters, dk));
            }
            assert forall|a2: Seq<u8>|
                #![trigger lookup(adapters@, a2)]
                lookup(adapters@, a2) is Some <==> exists|i: int|
                    0 <= i < k + 1 && colon_decode(#[trigger] es[i].0@) == a2 by {
                if a2 == dk {
                    assert(colon_decode(es[k as int].0@) == a2);
                }
            }
            assert forall|i: int|
                0 <= i < k + 1 && #[trigger] last_adapter_entry(es.subrange(0, k + 1), i)
                    implies (lookup(adapters@, colon_decode(es[i].0@)) matches Some(a)
                    && adapter_built(a, es[i].1@)) by {
                if i < k {
                    assert(es.subrange(0, k + 1)[k as int] == es[k as int]);
                    assert(last_adapter_entry(es.subrange(0, k as int), i)) by {
                        assert forall|j: int| i < j < k implies colon_decode(
                            #[trigger] es.subrange(0, k as int)[j].0@,
                        ) != colon_decode(es.subrange(0, k as int)[i].0@) by {
                            assert(es.subrange(0, k + 1)[j] == es[j]);
                        }
                    }
                }
            }
        }
        k = k + 1;
    }
    assert(es.subrange(0, es.len() as int) =~= es);
    Ok(DataDump { adapters })
}

} // verus!
