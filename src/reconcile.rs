//! Finding the destination address that stands for a snapshot device: the
//! same address if it is paired, else one the operator picks among the
//! paired addresses with the same vendor prefix.
use vstd::prelude::*;

use crate::error::MigrateError;
use crate::extract::{decimal_value, is_decimal, is_digits, parse_u64};
use crate::keyed::{get_str, keys_str};
use crate::mac::{colon_hex, compact_decode, format_mac, format_mac_win, hex_encode, parse_mac_win};
use crate::model::same_bytes;
use crate::order::{lemma_lex_asymmetric, lemma_lex_irreflexive, lemma_lex_total, lemma_lex_transitive, lex_less, lex_lt};
use crate::store::{device_name_of, get_device_name, AdapterNode, BtStore, RegNode, RegValue};
use crate::util::vec_take;

verus! {

/// Outcome of the search for a destination address.
#[derive(Debug, PartialEq, Eq)]
pub enum Suggestion {
    /// The target address itself is paired.
    Paired(Vec<u8>),
    /// Paired addresses with the target's vendor prefix, each with its
    /// display name, in ascending address order; the operator picks one by
    /// its 1-based position.
    Similar(Vec<(Vec<u8>, String)>),
}

/// Paired addresses as plain values: each with its display name, if it has one.
pub type PairedView = Seq<(Seq<u8>, Option<Seq<char>>)>;

/// `a` and `t` share their first three bytes, the vendor prefix.
pub open spec fn same_oui(a: Seq<u8>, t: Seq<u8>) -> bool {
    a.len() >= 3 && t.len() >= 3 && a[0] == t[0] && a[1] == t[1] && a[2] == t[2]
}

/// What the paired list says of each address: its display name, if it has
/// one, from the last entry for that address.
pub open spec fn paired_map(p: PairedView) -> Map<Seq<u8>, Option<Seq<char>>>
    decreases p.len(),
{
    if p.len() == 0 {
        Map::empty()
    } else {
        paired_map(p.drop_last()).insert(p.last().0, p.last().1)
    }
}

/// `t` is among the paired addresses.
pub open spec fn is_paired(p: PairedView, t: Seq<u8>) -> bool {
    paired_map(p).contains_key(t)
}

/// Address `a` is offered for target `t`: it is paired, has a display name,
/// and shares the target's vendor prefix.
pub open spec fn offered(m: Map<Seq<u8>, Option<Seq<char>>>, a: Seq<u8>, t: Seq<u8>) -> bool {
    m.contains_key(a) && m[a] is Some && same_oui(a, t)
}

/// Addresses in strictly ascending order.
pub open spec fn sorted_by_address(c: Seq<(Seq<u8>, Seq<char>)>) -> bool {
    forall|i: int, j: int| 0 <= i < j < c.len() ==> lex_lt(#[trigger] c[i].0, #[trigger] c[j].0)
}

/// `c` lists each offered address of `m` with its name, in ascending address
/// order; it depends on `m` alone, not on the order of the paired list.
pub open spec fn candidates_of(c: Seq<(Seq<u8>, Seq<char>)>, m: Map<Seq<u8>, Option<Seq<char>>>, t: Seq<u8>) -> bool {
    &&& sorted_by_address(c)
    &&& forall|x: (Seq<u8>, Seq<char>)| #[trigger] c.contains(x) <==> (offered(m, x.0, t) && m[x.0] == Some(x.1))
}

/// Some address is offered for `t`.
pub open spec fn any_offered(m: Map<Seq<u8>, Option<Seq<char>>>, t: Seq<u8>) -> bool {
    exists|a: Seq<u8>| #[trigger] offered(m, a, t)
}

/// An address is paired exactly where some entry of the list holds it.
pub proof fn lemma_paired_map_keys(p: PairedView, x: Seq<u8>)
    ensures
        paired_map(p).contains_key(x) <==> exists|i: int| 0 <= i < p.len() && (#[trigger] p[i]).0 == x,
    decreases p.len(),
{
    if p.len() > 0 {
        lemma_paired_map_keys(p.drop_last(), x);
        if paired_map(p.drop_last()).contains_key(x) {
            let i = choose|i: int| 0 <= i < p.drop_last().len() && (#[trigger] p.drop_last()[i]).0 == x;
            assert(p[i] == p.drop_last()[i]);
        }
        if exists|i: int| 0 <= i < p.len() && (#[trigger] p[i]).0 == x {
            let i = choose|i: int| 0 <= i < p.len() && (#[trigger] p[i]).0 == x;
            if i < p.len() - 1 {
                assert(p.drop_last()[i] == p[i]);
            }
        }
    }
}

/// Two address-sorted lists with the same elements are the same list.
pub proof fn lemma_sorted_unique(s1: Seq<(Seq<u8>, Seq<char>)>, s2: Seq<(Seq<u8>, Seq<char>)>)
    requires
        sorted_by_address(s1),
        sorted_by_address(s2),
        forall|x: (Seq<u8>, Seq<char>)| s1.contains(x) <==> s2.contains(x),
    ensures
        s1 == s2,
    decreases s1.len(),
{
    if s1.len() == 0 {
        if s2.len() > 0 {
            assert(s2.contains(s2[0]));
        }
        assert(s1 =~= s2);
    } else {
        assert(s1.contains(s1[0]));
        let j = choose|j: int| 0 <= j < s2.len() && s2[j] == s1[0];
        assert(s2.contains(s2[0]));
        let i = choose|i: int| 0 <= i < s1.len() && s1[i] == s2[0];
        if j > 0 {
            assert(lex_lt(s2[0].0, s2[j].0));
            if i > 0 {
                assert(lex_lt(s1[0].0, s1[i].0));
                lemma_lex_asymmetric(s1[0].0, s1[i].0);
            } else {
                lemma_lex_irreflexive(s1[0].0);
            }
        }
        let t1 = s1.drop_first();
        let t2 = s2.drop_first();
        assert forall|x: (Seq<u8>, Seq<char>)| t1.contains(x) <==> t2.contains(x) by {
            if t1.contains(x) {
                let k = choose|k: int| 0 <= k < t1.len() && t1[k] == x;
                assert(s1[k + 1] == x);
                assert(lex_lt(s1[0].0, s1[k + 1].0));
                lemma_lex_irreflexive(s1[0].0);
                assert(s1.contains(x));
                let m = choose|m: int| 0 <= m < s2.len() && s2[m] == x;
                assert(m != 0);
                assert(t2[m - 1] == x);
            }
            if t2.contains(x) {
                let k = choose|k: int| 0 <= k < t2.len() && t2[k] == x;
                assert(s2[k + 1] == x);
                assert(lex_lt(s2[0].0, s2[k + 1].0));
                lemma_lex_irreflexive(s2[0].0);
                assert(s2.contains(x));
                let m = choose|m: int| 0 <= m < s1.len() && s1[m] == x;
                assert(m != 0);
                assert(t1[m - 1] == x);
            }
        }
        assert(sorted_by_address(t1)) by {
            assert forall|a: int, b: int| 0 <= a < b < t1.len() implies lex_lt(#[trigger] t1[a].0, #[trigger] t1[b].0) by {
                assert(t1[a] == s1[a + 1] && t1[b] == s1[b + 1]);
            }
        }
        assert(sorted_by_address(t2)) by {
            assert forall|a: int, b: int| 0 <= a < b < t2.len() implies lex_lt(#[trigger] t2[a].0, #[trigger] t2[b].0) by {
                assert(t2[a] == s2[a + 1] && t2[b] == s2[b + 1]);
            }
        }
        lemma_sorted_unique(t1, t2);
        assert(s1 =~= s2) by {
            assert forall|k: int| 0 <= k < s1.len() implies s1[k] == s2[k] by {
                if k > 0 {
                    assert(s1[k] == t1[k - 1]);
                    assert(s2[k] == t2[k - 1]);
                }
            }
        }
    }
}

/// View of a list of addresses with optional names.
pub open spec fn paired_view(p: Seq<(Vec<u8>, Option<String>)>) -> PairedView {
    p.map_values(
        |e: (Vec<u8>, Option<String>)|
            (
                e.0@,
                match e.1 {
                    Some(s) => Some(s@),
                    None => None,
                },
            ),
    )
}

/// View of a list of addresses with names.
pub open spec fn pairs_view(c: Seq<(Vec<u8>, String)>) -> Seq<(Seq<u8>, Seq<char>)> {
    c.map_values(|e: (Vec<u8>, String)| (e.0@, e.1@))
}

/// `r` is the search outcome for target `t`, named `name`, among the paired
/// addresses `p`.
pub open spec fn suggests(r: Result<Suggestion, MigrateError>, p: PairedView, t: Seq<u8>, name: Seq<char>) -> bool {
    let m = paired_map(p);
    if m.contains_key(t) {
        r matches Ok(Suggestion::Paired(a)) && a@ == t
    } else if !any_offered(m, t) {
        r matches Err(MigrateError::NotPaired { label, address }) && label@ == name && address@ == colon_hex(t)
    } else {
        r matches Ok(Suggestion::Similar(c)) && candidates_of(pairs_view(c@), m, t)
    }
}

/// What the operator's answer selects among the candidates: no number
/// cancels; a number outside 1 to the candidate count is refused.
pub open spec fn selection(c: Seq<(Seq<u8>, Seq<char>)>, index: Option<int>) -> Result<Seq<u8>, MigrateError> {
    match index {
        None => Err(MigrateError::UserCancelled),
        Some(i) => if 1 <= i <= c.len() {
            Ok(c[i - 1].0)
        } else {
            Err(MigrateError::InvalidSelection)
        },
    }
}

/// View of a selected address.
pub open spec fn address_result(r: Result<Vec<u8>, MigrateError>) -> Result<Seq<u8>, MigrateError> {
    match r {
        Ok(a) => Ok(a@),
        Err(e) => Err(e),
    }
}

/// Every candidate offered to the operator shares the target's vendor prefix.
pub proof fn lemma_candidates_share_oui(
    p: PairedView,
    t: Seq<u8>,
    name: Seq<char>,
    r: Result<Suggestion, MigrateError>,
)
    requires
        suggests(r, p, t, name),
    ensures
        r matches Ok(Suggestion::Similar(c)) ==> forall|i: int|
            0 <= i < c@.len() ==> same_oui(#[trigger] c@[i].0@, t),
{
    if let Ok(Suggestion::Similar(c)) = r {
        assert forall|i: int| 0 <= i < c@.len() implies same_oui(#[trigger] c@[i].0@, t) by {
            let cv = pairs_view(c@);
            assert(cv[i] == (c@[i].0@, c@[i].1@));
            assert(cv.contains(cv[i]));
        }
    }
}

/// The same paired addresses, however they are listed, give the same
/// outcome and the same candidates in the same order; so the same answer
/// selects the same address.
pub proof fn lemma_candidates_order_independent(
    p1: PairedView,
    p2: PairedView,
    t: Seq<u8>,
    name: Seq<char>,
    r1: Result<Suggestion, MigrateError>,
    r2: Result<Suggestion, MigrateError>,
    index: Option<int>,
)
    requires
        paired_map(p1) == paired_map(p2),
        suggests(r1, p1, t, name),
        suggests(r2, p2, t, name),
    ensures
        r1 matches Ok(Suggestion::Paired(a1)) ==> (r2 matches Ok(Suggestion::Paired(a2)) && a1@ == a2@),
        r1 matches Ok(Suggestion::Similar(c1)) ==> (r2 matches Ok(Suggestion::Similar(c2)) && pairs_view(c1@)
            == pairs_view(c2@) && selection(pairs_view(c1@), index) == selection(pairs_view(c2@), index)),
        r1 is Err <==> r2 is Err,
{
    if let Ok(Suggestion::Similar(c1)) = r1 {
        if let Ok(Suggestion::Similar(c2)) = r2 {
            lemma_sorted_unique(pairs_view(c1@), pairs_view(c2@));
        }
    }
}

/// A paired target comes back as it is: no candidates are listed.
pub proof fn lemma_exact_match_first(
    p: PairedView,
    t: Seq<u8>,
    name: Seq<char>,
    r: Result<Suggestion, MigrateError>,
)
    requires
        suggests(r, p, t, name),
        is_paired(p, t),
    ensures
        r matches Ok(Suggestion::Paired(a)) && a@ == t,
{
}

/// The same candidates and the same answer select the same address; the
/// answers 0 and anything past the last candidate are refused as invalid.
pub proof fn lemma_selection_deterministic(
    c1: Seq<(Seq<u8>, Seq<char>)>,
    c2: Seq<(Seq<u8>, Seq<char>)>,
    i: int,
)
    requires
        c1 == c2,
    ensures
        selection(c1, Some(i)) == selection(c2, Some(i)),
        (i == 0 || i > c1.len()) ==> selection(c1, Some(i)) == Err::<Seq<u8>, MigrateError>(
            MigrateError::InvalidSelection,
        ),
        1 <= i <= c1.len() ==> selection(c1, Some(i)) == Ok::<Seq<u8>, MigrateError>(c1[i - 1].0),
{
}

/// Takes out the candidate with address `a`, if there is one.
fn drop_address(out: &mut Vec<(Vec<u8>, String)>, a: &[u8])
    requires
        sorted_by_address(pairs_view(old(out)@)),
    ensures
        sorted_by_address(pairs_view(final(out)@)),
        forall|x: (Seq<u8>, Seq<char>)|
            #[trigger] pairs_view(final(out)@).contains(x) <==> (pairs_view(old(out)@).contains(x) && x.0 != a@),
{
    let ghost c = pairs_view(out@);
    let mut i: usize = 0;
    while i < out.len()
        invariant
            c == pairs_view(out@),
            c == pairs_view(old(out)@),
            sorted_by_address(c),
            i <= out@.len(),
            forall|j: int| 0 <= j < i ==> (#[trigger] c[j]).0 != a@,
        decreases out@.len() - i,
    {
        assert(c[i as int] == (out@[i as int].0@, out@[i as int].1@));
        if same_bytes(out[i].0.as_slice(), a) {
            let ghost ii = i as int;
            out.remove(i);
            let ghost d = pairs_view(out@);
            assert(d =~= c.remove(ii));
            assert forall|p: int, q: int| 0 <= p < q < d.len() implies lex_lt(#[trigger] d[p].0, #[trigger] d[q].0) by {
                let pp = if p < ii { p } else { p + 1 };
                let qq = if q < ii { q } else { q + 1 };
                assert(d[p] == c[pp] && d[q] == c[qq]);
                assert(lex_lt(c[pp].0, c[qq].0));
            }
            assert forall|x: (Seq<u8>, Seq<char>)| #[trigger] d.contains(x) <==> (c.contains(x) && x.0 != a@) by {
                if d.contains(x) {
                    let k = choose|k: int| 0 <= k < d.len() && d[k] == x;
                    let kk = if k < ii { k } else { k + 1 };
                    assert(c[kk] == x);
                    if x.0 == a@ {
                        if kk < ii {
                            assert(false);
                        } else {
                            assert(lex_lt(c[ii].0, c[kk].0));
                            lemma_lex_irreflexive(a@);
                        }
                    }
                }
                if c.contains(x) && x.0 != a@ {
                    let k = choose|k: int| 0 <= k < c.len() && c[k] == x;
                    assert(k != ii);
                    let kk = if k < ii { k } else { k - 1 };
                    assert(d[kk] == x);
                }
            }
            return;
        }
        i = i + 1;
    }
    assert forall|x: (Seq<u8>, Seq<char>)| #[trigger] c.contains(x) implies x.0 != a@ by {
        let k = choose|k: int| 0 <= k < c.len() && c[k] == x;
    }
}

/// Puts a candidate into its place by address.
fn insert_sorted(out: &mut Vec<(Vec<u8>, String)>, e: (Vec<u8>, String))
    requires
        sorted_by_address(pairs_view(old(out)@)),
        forall|x: (Seq<u8>, Seq<char>)| #[trigger] pairs_view(old(out)@).contains(x) ==> x.0 != e.0@,
    ensures
        sorted_by_address(pairs_view(final(out)@)),
        forall|x: (Seq<u8>, Seq<char>)|
            #[trigger] pairs_view(final(out)@).contains(x) <==> (pairs_view(old(out)@).contains(x) || x == (e.0@, e.1@)),
{
    let ghost c = pairs_view(out@);
    let ghost ev = (e.0@, e.1@);
    let mut i: usize = 0;
    let mut found = false;
    while i < out.len() && !found
        invariant
            c == pairs_view(out@),
            c == pairs_view(old(out)@),
            ev == (e.0@, e.1@),
            sorted_by_address(c),
            i <= out@.len(),
            found ==> i < out@.len() && lex_lt(ev.0, c[i as int].0),
            forall|j: int| 0 <= j < i ==> !lex_lt(ev.0, (#[trigger] c[j]).0),
        decreases out@.len() - i + (if found { 0int } else { 1int }),
    {
        assert(c[i as int] == (out@[i as int].0@, out@[i as int].1@));
        if lex_less(e.0.as_slice(), out[i].0.as_slice()) {
            found = true;
        } else {
            i = i + 1;
        }
    }
    let ghost ii = i as int;
    out.insert(i, e);
    let ghost d = pairs_view(out@);
    assert(d =~= c.insert(ii, ev));
    assert forall|p: int, q: int| 0 <= p < q < d.len() implies lex_lt(#[trigger] d[p].0, #[trigger] d[q].0) by {
        if p != ii && q != ii {
            let pp = if p < ii { p } else { p - 1 };
            let qq = if q < ii { q } else { q - 1 };
            assert(d[p] == c[pp] && d[q] == c[qq]);
            assert(lex_lt(c[pp].0, c[qq].0));
        } else if q == ii {
            assert(d[p] == c[p]);
            assert(c.contains(c[p]));
            lemma_lex_total(ev.0, c[p].0);
        } else {
            assert(d[q] == c[q - 1]);
            assert(lex_lt(ev.0, c[ii].0));
            if q - 1 > ii {
                assert(lex_lt(c[ii].0, c[q - 1].0));
                lemma_lex_transitive(ev.0, c[ii].0, c[q - 1].0);
            }
        }
    }
    assert forall|x: (Seq<u8>, Seq<char>)| #[trigger] d.contains(x) <==> (c.contains(x) || x == ev) by {
        if d.contains(x) {
            let k = choose|k: int| 0 <= k < d.len() && d[k] == x;
            if k < ii {
                assert(c[k] == x);
            } else if k > ii {
                assert(c[k - 1] == x);
            }
        }
        if c.contains(x) {
            let k = choose|k: int| 0 <= k < c.len() && c[k] == x;
            let kk = if k < ii { k } else { k + 1 };
            assert(d[kk] == x);
        }
        if x == ev {
            assert(d[ii] == x);
        }
    }
}

/// Looks for the target among the paired addresses, each given with its
/// display name where one could be read; where an address comes more than
/// once, its last entry counts. A paired target comes back as it is; else
/// the addresses with its vendor prefix and a name are offered, in
/// ascending address order.
pub fn check_or_suggest_addr(
    target: &[u8],
    target_name: &str,
    possible: Vec<(Vec<u8>, Option<String>)>,
) -> (r: Result<Suggestion, MigrateError>)
    requires
        target@.len() == 6,
    ensures
        suggests(r, paired_view(possible@), target@, target_name@),
{
    let ghost pv = paired_view(possible@);
    proof {
        lemma_paired_map_keys(pv, target@);
    }
    let ghost paired = paired_map(pv).contains_key(target@);
    let mut i: usize = 0;
    while i < possible.len()
        invariant
            i <= possible@.len(),
            pv == paired_view(possible@),
            paired <==> exists|j: int| 0 <= j < pv.len() && (#[trigger] pv[j]).0 == target@,
            paired == paired_map(pv).contains_key(target@),
            forall|j: int| 0 <= j < i ==> (#[trigger] pv[j]).0 != target@,
        decreases possible@.len() - i,
    {
        assert(pv[i as int].0 == possible@[i as int].0@);
        if same_bytes(possible[i].0.as_slice(), target) {
            let e = vec_take(possible, i).unwrap();
            assert(pv[i as int].0 == target@);
            return Ok(Suggestion::Paired(e.0));
        }
        i = i + 1;
    }
    let mut rest = possible;
    let ghost orig = rest@;
    let mut out: Vec<(Vec<u8>, String)> = Vec::new();
    let mut k: usize = 0;
    let n: usize = rest.len();
    assert(pv.subrange(0, 0) =~= Seq::<(Seq<u8>, Option<Seq<char>>)>::empty());
    assert(pairs_view(out@) =~= Seq::<(Seq<u8>, Seq<char>)>::empty());
    while rest.len() > 0
        invariant
            orig.len() == n,
            orig.len() == k + rest@.len(),
            rest@ == orig.subrange(k as int, orig.len() as int),
            pv == paired_view(orig),
            target@.len() == 6,
            candidates_of(pairs_view(out@), paired_map(pv.subrange(0, k as int)), target@),
        decreases rest@.len(),
    {
        let ghost m0 = paired_map(pv.subrange(0, k as int));
        let ghost c0 = pairs_view(out@);
        let e = rest.remove(0);
        assert(e == orig[k as int]);
        proof {
            assert(pv.subrange(0, k + 1).drop_last() =~= pv.subrange(0, k as int));
            assert(pv[k as int] == (e.0@, match e.1 { Some(s) => Some(s@), None => None }));
        }
        let ghost m1 = paired_map(pv.subrange(0, k + 1));
        let ghost ea = e.0@;
        assert(m1 == m0.insert(ea, pv[k as int].1));
        let (addr, name) = e;
        let keep = addr.len() >= 3 && addr[0] == target[0] && addr[1] == target[1] && addr[2] == target[2];
        if keep {
            drop_address(&mut out, addr.as_slice());
            match name {
                Some(nm) => {
                    insert_sorted(&mut out, (addr, nm));
                },
                None => {},
            }
        }
        proof {
            let c1 = pairs_view(out@);
            assert forall|x: (Seq<u8>, Seq<char>)| #[trigger] c1.contains(x) <==> (offered(m1, x.0, target@) && m1[x.0] == Some(x.1)) by {
                if x.0 != ea {
                    assert(m1.contains_key(x.0) == m0.contains_key(x.0));
                    if m0.contains_key(x.0) {
                        assert(m1[x.0] == m0[x.0]);
                    }
                }
                if !keep && c0.contains(x) {
                    assert(offered(m0, x.0, target@));
                }
            }
        }
        k = k + 1;
        assert(rest@ =~= orig.subrange(k as int, orig.len() as int));
    }
    assert(pv.subrange(0, k as int) =~= pv);
    let ghost m = paired_map(pv);
    if out.len() == 0 {
        proof {
            if any_offered(m, target@) {
                let a = choose|a: Seq<u8>| #[trigger] offered(m, a, target@);
                let x = (a, m[a]->Some_0);
                assert(pairs_view(out@).contains(x));
            }
        }
        Err(MigrateError::NotPaired { label: String::from_str(target_name), address: format_mac(target) })
    } else {
        proof {
            let c = pairs_view(out@);
            assert(c[0] == (out@[0].0@, out@[0].1@));
            assert(c.contains(c[0]));
            assert(offered(m, c[0].0, target@));
        }
        Ok(Suggestion::Similar(out))
    }
}

/// Picks the candidate at the operator's 1-based `index`; `None` stands for
/// an answer that was blank or not a number.
pub fn choose_candidate(candidates: Vec<(Vec<u8>, String)>, index: Option<u64>) -> (r: Result<
    Vec<u8>,
    MigrateError,
>)
    ensures
        address_result(r) == selection(
            pairs_view(candidates@),
            match index {
                Some(i) => Some(i as int),
                None => None,
            },
        ),
{
    let ghost cv = pairs_view(candidates@);
    match index {
        None => Err(MigrateError::UserCancelled),
        Some(i) => {
            if i == 0 || i > candidates.len() as u64 {
                return Err(MigrateError::InvalidSelection);
            }
            let e = vec_take(candidates, (i - 1) as usize).unwrap();
            assert(cv[i - 1] == (e.0@, e.1@));
            Ok(e.0)
        },
    }
}

/// A character of the Unicode `White_Space` property.
pub open spec fn is_white_space(c: char) -> bool {
    let v = c as int;
    ||| 0x9 <= v <= 0xd
    ||| v == 0x20
    ||| v == 0x85
    ||| v == 0xa0
    ||| v == 0x1680
    ||| 0x2000 <= v <= 0x200a
    ||| v == 0x2028
    ||| v == 0x2029
    ||| v == 0x202f
    ||| v == 0x205f
    ||| v == 0x3000
}

/// The text without its leading white space.
pub open spec fn trim_start(s: Seq<char>) -> Seq<char>
    decreases s.len(),
{
    if s.len() > 0 && is_white_space(s[0]) {
        trim_start(s.drop_first())
    } else {
        s
    }
}

/// The text without its trailing white space.
pub open spec fn trim_end(s: Seq<char>) -> Seq<char>
    decreases s.len(),
{
    if s.len() > 0 && is_white_space(s.last()) {
        trim_end(s.drop_last())
    } else {
        s
    }
}

/// The text without leading and trailing white space.
pub open spec fn trimmed(s: Seq<char>) -> Seq<char> {
    trim_end(trim_start(s))
}

/// Relies on str::trim: the text without the leading and trailing characters
/// that `char::is_whitespace` accepts, which are those of `White_Space`.
#[verifier::external_body]
fn trim_answer(s: &str) -> (r: String)
    ensures
        r@ == trimmed(s@),
{
    s.trim().to_string()
}

fn all_digits(s: &str, from: usize) -> (r: bool)
    requires
        from <= s@.len(),
    ensures
        r == (forall|i: int| from <= i < s@.len() ==> '0' <= #[trigger] s@[i] && s@[i] <= '9'),
{
    let n: usize = s.unicode_len();
    let mut i: usize = from;
    while i < n
        invariant
            n == s@.len(),
            from <= i <= n,
            forall|j: int| from <= j < i ==> '0' <= #[trigger] s@[j] && s@[j] <= '9',
        decreases n - i,
    {
        let c = s.get_char(i);
        if !('0' <= c && c <= '9') {
            return false;
        }
        i = i + 1;
    }
    true
}

/// Whether the text is decimal: digits after an optional `+`.
fn decimal_text(s: &str) -> (r: bool)
    ensures
        r == is_decimal(s@),
{
    let n: usize = s.unicode_len();
    if n == 0 {
        return false;
    }
    if s.get_char(0) == '+' {
        let rest = all_digits(s, 1);
        assert(forall|i: int| 0 <= i < s@.drop_first().len() ==> s@.drop_first()[i] == s@[i + 1]);
        if rest && n > 1 {
            assert(is_digits(s@.drop_first())) by {
                assert forall|i: int| 0 <= i < s@.drop_first().len() implies '0' <= #[trigger] s@.drop_first()[i]
                    && s@.drop_first()[i] <= '9' by {
                    assert(s@.drop_first()[i] == s@[i + 1]);
                }
            }
            true
        } else {
            if n > 1 {
                let ghost bad = choose|i: int| 1 <= i < s@.len() && !('0' <= #[trigger] s@[i] && s@[i] <= '9');
                assert(!('0' <= s@.drop_first()[bad - 1] && s@.drop_first()[bad - 1] <= '9'));
            }
            false
        }
    } else {
        all_digits(s, 0)
    }
}

/// The index that an answer line gives, if it is a number, however large.
pub open spec fn answer_index(line: Seq<char>) -> Option<int> {
    let t = trimmed(line);
    if is_decimal(t) {
        Some(decimal_value(t))
    } else {
        None
    }
}

/// Picks a candidate by the operator's answer line: blank or not a number
/// cancels, a number outside the list is an invalid selection.
pub fn select_candidate(candidates: Vec<(Vec<u8>, String)>, answer: &str) -> (r: Result<
    Vec<u8>,
    MigrateError,
>)
    ensures
        address_result(r) == selection(pairs_view(candidates@), answer_index(answer@)),
{
    let t = trim_answer(answer);
    if !decimal_text(t.as_str()) {
        return Err(MigrateError::UserCancelled);
    }
    match parse_u64(t.as_str()) {
        Some(i) => choose_candidate(candidates, Some(i)),
        None => {
            let len: usize = candidates.len();
            assert(len as int <= u64::MAX as int);
            Err(MigrateError::InvalidSelection)
        },
    }
}

/// Names of the entries under an adapter node where devices of one kind
/// are recorded: child nodes for BLE devices, values for classic ones.
pub open spec fn enumerable(n: AdapterNode, ble: bool) -> Seq<Seq<char>> {
    if ble {
        n.devices@.map_values(|e: (String, RegNode)| e.0@)
    } else {
        n.values@.map_values(|e: (String, RegValue)| e.0@)
    }
}

/// Entries whose names decode as compact addresses, each with the display
/// name that the store holds for it.
pub open spec fn paired_list(s: BtStore, names: Seq<Seq<char>>) -> PairedView
    decreases names.len(),
{
    if names.len() == 0 {
        seq![]
    } else {
        let r = paired_list(s, names.drop_last());
        match compact_decode(names.last()) {
            Some(a) => r.push((a, device_name_of(s, hex_encode(a)))),
            None => r,
        }
    }
}

/// Looks the target up among the devices of one kind paired with the
/// adapter in the destination store, and offers similar ones if it is absent.
pub fn check_or_suggest_addr_with_reg(
    store: &BtStore,
    adapter_addr: &[u8],
    target_addr: &[u8],
    target_name: &str,
    ble: bool,
) -> (r: Result<Suggestion, MigrateError>)
    requires
        adapter_addr@.len() == 6,
        target_addr@.len() == 6,
    ensures
        match store.adapter_of(hex_encode(adapter_addr@)) {
            None => r == Err::<Suggestion, MigrateError>(MigrateError::NotFound),
            Some(n) => suggests(r, paired_list(*store, enumerable(n, ble)), target_addr@, target_name@),
        },
{
    let akey = format_mac_win(adapter_addr)?;
    let node = match get_str(&store.adapters, &akey) {
        Some(n) => n,
        None => return Err(MigrateError::NotFound),
    };
    let names = if ble {
        keys_str(&node.devices)
    } else {
        keys_str(&node.values)
    };
    let ghost nv = enumerable(*node, ble);
    assert(names@.map_values(|s: String| s@) =~= nv);
    let mut possible: Vec<(Vec<u8>, Option<String>)> = Vec::new();
    let mut i: usize = 0;
    while i < names.len()
        invariant
            i <= names@.len(),
            nv.len() == names@.len(),
            forall|j: int| 0 <= j < names@.len() ==> #[trigger] names@[j]@ == nv[j],
            paired_view(possible@) == paired_list(*store, nv.subrange(0, i as int)),
        decreases names@.len() - i,
    {
        assert(nv.subrange(0, i + 1).drop_last() =~= nv.subrange(0, i as int));
        assert(nv.subrange(0, i + 1).last() == names@[i as int]@);
        match parse_mac_win(names[i].as_str()) {
            Ok(addr) => {
                let name = match get_device_name(store, addr.as_slice()) {
                    Ok(n) => Some(n),
                    Err(_) => None,
                };
                let ghost before = possible@;
                possible.push((addr, name));
                assert(paired_view(possible@) =~= paired_view(before).push(
                    (
                        addr@,
                        match name {
                            Some(s) => Some(s@),
                            None => None,
                        },
                    ),
                ));
            },
            Err(_) => {},
        }
        i = i + 1;
    }
    assert(nv.subrange(0, names@.len() as int) =~= nv);
    check_or_suggest_addr(target_addr, target_name, possible)
}

} // verus!
