//! Text listing of a snapshot: each adapter, then its devices with their names.
use vstd::prelude::*;

use crate::mac::{colon_hex, format_mac};
use crate::model::{Adapter, BytesAsMACWrapper, DataDump, Device};

verus! {

/// One line per device: a tab, its address, ` => `, its name.
pub open spec fn device_lines(ds: Seq<(BytesAsMACWrapper, Device)>) -> Seq<char>
    decreases ds.len(),
{
    if ds.len() == 0 {
        seq![]
    } else {
        device_lines(ds.drop_last()) + "\t"@ + colon_hex(ds.last().0@) + " => "@ + ds.last().1.name@
            + "\n"@
    }
}

/// Each adapter's address and ` =>` on a line, then its devices' lines.
pub open spec fn adapter_lines(adapters: Seq<(BytesAsMACWrapper, Adapter)>) -> Seq<char>
    decreases adapters.len(),
{
    if adapters.len() == 0 {
        seq![]
    } else {
        adapter_lines(adapters.drop_last()) + colon_hex(adapters.last().0@) + " =>\n"@
            + device_lines(adapters.last().1.devices@)
    }
}

/// The listing of a whole snapshot, under a heading.
pub open spec fn listing(d: DataDump) -> Seq<char> {
    "ADAPTERS:\n"@ + adapter_lines(d.adapters@)
}

fn append_devices(out: &mut String, ds: &Vec<(BytesAsMACWrapper, Device)>)
    ensures
        final(out)@ == old(out)@ + device_lines(ds@),
{
    let mut i: usize = 0;
    let ghost start = out@;
    assert(ds@.subrange(0, 0) =~= Seq::<(BytesAsMACWrapper, Device)>::empty());
    assert(start + device_lines(ds@.subrange(0, 0)) =~= start);
    while i < ds.len()
        invariant
            i <= ds@.len(),
            out@ == start + device_lines(ds@.subrange(0, i as int)),
        decreases ds@.len() - i,
    {
        assert(ds@.subrange(0, i + 1).drop_last() =~= ds@.subrange(0, i as int));
        let mac = format_mac(ds[i].0.0.as_slice());
        out.append("\t");
        out.append(mac.as_str());
        out.append(" => ");
        out.append(ds[i].1.name.as_str());
        out.append("\n");
        i = i + 1;
        assert(out@ =~= start + device_lines(ds@.subrange(0, i as int)));
    }
    assert(ds@.subrange(0, ds@.len() as int) =~= ds@);
}

/// Lists the adapters of a snapshot, each with its devices and their names.
pub fn list_text(dump: &DataDump) -> (r: String)
    ensures
        r@ == listing(*dump),
{
    let mut out = String::from_str("ADAPTERS:\n");
    let ghost start = out@;
    let ads = &dump.adapters;
    let mut i: usize = 0;
    assert(ads@.subrange(0, 0) =~= Seq::<(BytesAsMACWrapper, Adapter)>::empty());
    assert(start + adapter_lines(ads@.subrange(0, 0)) =~= start);
    while i < ads.len()
        invariant
            i <= ads@.len(),
            start == "ADAPTERS:\n"@,
            out@ == start + adapter_lines(ads@.subrange(0, i as int)),
        decreases ads@.len() - i,
    {
        assert(ads@.subrange(0, i + 1).drop_last() =~= ads@.subrange(0, i as int));
        let mac = format_mac(ads[i].0.0.as_slice());
        out.append(mac.as_str());
        out.append(" =>\n");
        append_devices(&mut out, &ads[i].1.devices);
        i = i + 1;
        assert(out@ =~= start + adapter_lines(ads@.subrange(0, i as int)));
    }
    assert(ads@.subrange(0, ads@.len() as int) =~= ads@);
    out
}

} // verus!
