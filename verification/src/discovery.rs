//! Printers found over mDNS: what is kept of each answer, one printer per
//! identifier, listed by name.
use vstd::prelude::*;
use vstd::multiset::Multiset;
use crate::text::{
    trim, chars_of, trim_chars, string_from_chars, append_str, append_chars, chars_equal,
};
use crate::models::{DiscoveredPrinter, string_of, copy_opt_string};

verus! {

// ---------------------------------------------------------------------------
// Addresses
// ---------------------------------------------------------------------------

/// An address a service resolved to, written out (`IpAddr::to_string`).
#[derive(Clone, Debug)]
pub struct ResolvedAddress {
    pub is_ipv4: bool,
    pub text: String,
}

impl ResolvedAddress {
    pub fn duplicate(&self) -> (r: Self)
        ensures
            r == *self,
    {
        ResolvedAddress { is_ipv4: self.is_ipv4, text: self.text.clone() }
    }
}

/// The index of the first IPv4 address.
pub open spec fn first_ipv4(addresses: Seq<ResolvedAddress>) -> Option<int>
    decreases addresses.len(),
{
    if addresses.len() == 0 {
        None
    } else if addresses[0].is_ipv4 {
        Some(0)
    } else {
        match first_ipv4(addresses.drop_first()) {
            Some(i) => Some(i + 1),
            None => None,
        }
    }
}

proof fn lemma_first_ipv4(addresses: Seq<ResolvedAddress>)
    ensures
        match first_ipv4(addresses) {
            Some(i) => 0 <= i < addresses.len() && addresses[i].is_ipv4 && forall|j: int|
                0 <= j < i ==> !(#[trigger] addresses[j]).is_ipv4,
            None => forall|j: int| 0 <= j < addresses.len() ==> !(#[trigger] addresses[j]).is_ipv4,
        },
    decreases addresses.len(),
{
    if addresses.len() > 0 && !addresses[0].is_ipv4 {
        let t = addresses.drop_first();
        lemma_first_ipv4(t);
        assert forall|j: int| 0 < j < addresses.len() implies addresses[j] == t[j - 1] by {}
    }
}

/// The address used for a printer: an IPv4 address when there is one, since
/// they work best on a home network; otherwise the first address.
pub open spec fn preferred_address_spec(addresses: Seq<ResolvedAddress>) -> Option<ResolvedAddress> {
    match first_ipv4(addresses) {
        Some(i) => Some(addresses[i]),
        None => if addresses.len() > 0 {
            Some(addresses[0])
        } else {
            None
        },
    }
}

/// The address used for a printer.
pub fn preferred_address(addresses: &Vec<ResolvedAddress>) -> (r: Option<ResolvedAddress>)
    ensures
        r == preferred_address_spec(addresses@),
        r is Some <==> addresses@.len() > 0,
        (exists|i: int| 0 <= i < addresses@.len() && (#[trigger] addresses@[i]).is_ipv4) ==> (
        r matches Some(a) && a.is_ipv4),
{
    proof {
        lemma_first_ipv4(addresses@);
    }
    for i in 0..addresses.len()
        invariant
            forall|j: int| 0 <= j < i ==> !(#[trigger] addresses@[j]).is_ipv4,
            match first_ipv4(addresses@) {
                Some(k) => 0 <= k < addresses@.len() && addresses@[k].is_ipv4 && forall|j: int|
                    0 <= j < k ==> !(#[trigger] addresses@[j]).is_ipv4,
                None => forall|j: int|
                    0 <= j < addresses@.len() ==> !(#[trigger] addresses@[j]).is_ipv4,
            },
    {
        if addresses[i].is_ipv4 {
            return Some(addresses[i].duplicate());
        }
    }
    if addresses.len() > 0 {
        Some(addresses[0].duplicate())
    } else {
        None
    }
}

// ---------------------------------------------------------------------------
// Answers
// ---------------------------------------------------------------------------

/// What an mDNS answer for a printer service carries.
#[derive(Clone, Debug)]
pub struct ServiceRecord {
    pub fullname: String,
    pub port: u16,
    pub addresses: Vec<ResolvedAddress>,
    pub sn: Option<String>,
    pub device_name: Option<String>,
    pub machine_type: Option<String>,
    pub link_mode: Option<String>,
    pub region: Option<String>,
}

/// What `str::to_uppercase` gives for `s` (the Unicode upper-case mapping).
pub uninterp spec fn unicode_uppercase(s: Seq<char>) -> Seq<char>;

/// `str::to_uppercase`. The contract names the result: the Unicode case
/// tables are not stated here.
#[verifier::external_body]
fn uppercase(s: &str) -> (r: String)
    ensures
        r@ == unicode_uppercase(s@),
{
    s.to_uppercase()
}

pub open spec fn text_or_empty(s: Option<String>) -> Seq<char> {
    match s {
        Some(v) => v@,
        None => Seq::<char>::empty(),
    }
}

/// The serial number of an answer: its `sn` property, trimmed and upper-cased.
pub open spec fn record_sn(record: ServiceRecord) -> Seq<char> {
    unicode_uppercase(trim(text_or_empty(record.sn)))
}

/// The printer an answer describes, when it has an address: identified by its
/// serial number, else by its service name; named by its device name, else by
/// its model and serial number.
pub open spec fn printer_matches_record(p: DiscoveredPrinter, record: ServiceRecord) -> bool {
    let sn = record_sn(record);
    let device = text_or_empty(record.device_name);
    &&& p.id@ == (if sn.len() == 0 { record.fullname@ } else { sn })
    &&& p.name@ == (if device.len() > 0 {
        device
    } else if sn.len() == 0 {
        "Snapmaker U1"@
    } else {
        "Snapmaker U1 · "@ + sn
    })
    &&& preferred_address_spec(record.addresses@) matches Some(a) && p.host@ == a.text@
    &&& p.port == record.port
    &&& p.sn@ == sn
    &&& p.machine_type@ == match record.machine_type {
        Some(m) => m@,
        None => "Snapmaker U1"@,
    }
    &&& p.device_name@ == device
    &&& p.link_mode@ == text_or_empty(record.link_mode)
    &&& p.region@ == text_or_empty(record.region)
}

fn text_or_empty_string(s: &Option<String>) -> (r: String)
    ensures
        r@ == text_or_empty(*s),
{
    match s {
        Some(v) => v.clone(),
        None => String::new(),
    }
}

/// The printer an answer describes; `None` when it resolved to no address.
pub fn printer_from_record(record: &ServiceRecord) -> (r: Option<DiscoveredPrinter>)
    ensures
        r is Some <==> record.addresses@.len() > 0,
        r matches Some(p) ==> printer_matches_record(p, *record),
{
    let address = match preferred_address(&record.addresses) {
        Some(a) => a,
        None => return None,
    };
    let raw_sn = text_or_empty_string(&record.sn);
    let trimmed = trim_chars(chars_of(raw_sn.as_str()).as_slice());
    let sn = uppercase(string_from_chars(trimmed.as_slice()).as_str());
    let id = if sn.as_str().is_empty() {
        record.fullname.clone()
    } else {
        sn.clone()
    };
    let device_name = text_or_empty_string(&record.device_name);
    let machine_type = match &record.machine_type {
        Some(m) => m.clone(),
        None => string_of("Snapmaker U1"),
    };
    let name = if !device_name.as_str().is_empty() {
        device_name.clone()
    } else if sn.as_str().is_empty() {
        string_of("Snapmaker U1")
    } else {
        let mut n = chars_of("Snapmaker U1 · ");
        append_str(&mut n, sn.as_str());
        string_from_chars(n.as_slice())
    };
    Some(
        DiscoveredPrinter {
            id,
            name,
            host: address.text,
            port: record.port,
            sn,
            machine_type,
            device_name,
            link_mode: text_or_empty_string(&record.link_mode),
            region: text_or_empty_string(&record.region),
        },
    )
}

// ---------------------------------------------------------------------------
// One printer per identifier
// ---------------------------------------------------------------------------

/// No two printers share an identifier.
pub open spec fn ids_unique(s: Seq<DiscoveredPrinter>) -> bool {
    forall|i: int, j: int| 0 <= i < j < s.len() ==> s[i].id@ != s[j].id@
}

/// Where a printer with identifier `id` is in the list.
pub open spec fn index_of_id(s: Seq<DiscoveredPrinter>, id: Seq<char>) -> Option<int>
    decreases s.len(),
{
    if s.len() == 0 {
        None
    } else if s.last().id@ == id {
        Some(s.len() - 1)
    } else {
        index_of_id(s.drop_last(), id)
    }
}

proof fn lemma_index_of_id(s: Seq<DiscoveredPrinter>, id: Seq<char>)
    ensures
        match index_of_id(s, id) {
            Some(i) => 0 <= i < s.len() && s[i].id@ == id,
            None => forall|j: int| 0 <= j < s.len() ==> (#[trigger] s[j]).id@ != id,
        },
    decreases s.len(),
{
    if s.len() > 0 && s.last().id@ != id {
        lemma_index_of_id(s.drop_last(), id);
        assert forall|j: int| 0 <= j < s.len() - 1 implies s[j] == s.drop_last()[j] by {}
    }
}

/// The list after a new answer: a printer with the same identifier is
/// replaced in place, any other is appended (the newest answer wins).
pub open spec fn with_printer(s: Seq<DiscoveredPrinter>, p: DiscoveredPrinter) -> Seq<DiscoveredPrinter> {
    match index_of_id(s, p.id@) {
        Some(i) => s.update(i, p),
        None => s.push(p),
    }
}

/// Records the printer of a new answer.
pub fn collect_printer(printers: &mut Vec<DiscoveredPrinter>, p: DiscoveredPrinter)
    requires
        ids_unique(old(printers)@),
    ensures
        final(printers)@ == with_printer(old(printers)@, p),
        ids_unique(final(printers)@),
{
    proof {
        lemma_index_of_id(printers@, p.id@);
    }
    let id = chars_of(p.id.as_str());
    let mut i = printers.len();
    assert(printers@.take(i as int) =~= printers@);
    while i > 0
        invariant
            i <= printers@.len(),
            printers@ == old(printers)@,
            ids_unique(printers@),
            id@ == p.id@,
            index_of_id(printers@, p.id@) == index_of_id(printers@.take(i as int), p.id@),
        decreases i,
    {
        let ghost prefix = printers@.take(i as int);
        assert(prefix.last() == printers@[i - 1]);
        assert(prefix.drop_last() =~= printers@.take(i - 1));
        if chars_equal(chars_of(printers[i - 1].id.as_str()).as_slice(), id.as_slice()) {
            proof {
                lemma_index_of_id(prefix, p.id@);
                assert(index_of_id(prefix, p.id@) == Some(i - 1));
            }
            let ghost before = printers@;
            printers.set(i - 1, p);
            assert forall|m: int| 0 <= m < printers@.len() implies (#[trigger] printers@[m]).id@
                == before[m].id@ by {}
            return;
        }
        i = i - 1;
    }
    assert(printers@.take(0) =~= Seq::<DiscoveredPrinter>::empty());
    printers.push(p);
}

// ---------------------------------------------------------------------------
// Listing by name
// ---------------------------------------------------------------------------

/// The order of `String`s: lexicographic by code point (which is the byte
/// order of their UTF-8 encodings).
pub open spec fn text_le(a: Seq<char>, b: Seq<char>) -> bool
    decreases a.len(),
{
    if a.len() == 0 {
        true
    } else if b.len() == 0 {
        false
    } else if a[0] != b[0] {
        (a[0] as u32) < (b[0] as u32)
    } else {
        text_le(a.drop_first(), b.drop_first())
    }
}

proof fn lemma_text_le_total(a: Seq<char>, b: Seq<char>)
    ensures
        text_le(a, b) || text_le(b, a),
    decreases a.len(),
{
    if a.len() > 0 && b.len() > 0 && a[0] == b[0] {
        lemma_text_le_total(a.drop_first(), b.drop_first());
    } else if a.len() > 0 && b.len() > 0 {
        assert((a[0] as u32) != (b[0] as u32)) by {
            vstd::utf8::char_u32_cast(a[0], a[0] as u32);
            vstd::utf8::char_u32_cast(b[0], b[0] as u32);
        }
    }
}

proof fn lemma_text_le_transitive(a: Seq<char>, b: Seq<char>, c: Seq<char>)
    requires
        text_le(a, b),
        text_le(b, c),
    ensures
        text_le(a, c),
    decreases a.len(),
{
    if a.len() > 0 && b.len() > 0 && c.len() > 0 && a[0] == b[0] && b[0] == c[0] {
        lemma_text_le_transitive(a.drop_first(), b.drop_first(), c.drop_first());
    }
}

/// Exec version of `text_le`.
fn text_le_exec(a: &[char], b: &[char]) -> (r: bool)
    ensures
        r == text_le(a@, b@),
{
    let mut i: usize = 0;
    assert(a@.skip(0) =~= a@);
    assert(b@.skip(0) =~= b@);
    while i < a.len() && i < b.len() && a[i] == b[i]
        invariant
            i <= a@.len(),
            i <= b@.len(),
            text_le(a@, b@) == text_le(a@.skip(i as int), b@.skip(i as int)),
        decreases a@.len() - i,
    {
        assert(a@.skip(i as int).drop_first() =~= a@.skip(i + 1));
        assert(b@.skip(i as int).drop_first() =~= b@.skip(i + 1));
        assert(a@.skip(i as int)[0] == a@[i as int]);
        assert(b@.skip(i as int)[0] == b@[i as int]);
        i = i + 1;
    }
    if i == a.len() {
        return true;
    }
    if i == b.len() {
        return false;
    }
    assert(a@.skip(i as int)[0] == a@[i as int]);
    assert(b@.skip(i as int)[0] == b@[i as int]);
    (a[i] as u32) < (b[i] as u32)
}

/// The printers are listed by name.
pub open spec fn sorted_by_name(s: Seq<DiscoveredPrinter>) -> bool {
    forall|i: int, j: int| 0 <= i < j < s.len() ==> text_le(s[i].name@, s[j].name@)
}

/// Lists the printers by name; the list holds the same printers.
pub fn sort_by_name(printers: Vec<DiscoveredPrinter>) -> (r: Vec<DiscoveredPrinter>)
    ensures
        sorted_by_name(r@),
        r@.to_multiset() == printers@.to_multiset(),
{
    broadcast use vstd::seq_lib::group_to_multiset_ensures;

    let ghost all = printers@;
    let mut rest = printers;
    let mut r: Vec<DiscoveredPrinter> = Vec::new();
    assert(all.take(all.len() as int) =~= all);
    while rest.len() > 0
        invariant
            rest@ == all.take(rest@.len() as int),
            rest@.len() <= all.len(),
            sorted_by_name(r@),
            r@.to_multiset().add(rest@.to_multiset()) == all.to_multiset(),
        decreases rest@.len(),
    {
        let ghost before_rest = rest@;
        let x = rest.pop().unwrap();
        assert(before_rest =~= rest@.push(x));
        assert(rest@ =~= all.take(rest@.len() as int));
        let xname = chars_of(x.name.as_str());
        let mut j: usize = 0;
        while j < r.len() && text_le_exec(chars_of(r[j].name.as_str()).as_slice(), xname.as_slice())
            invariant
                j <= r@.len(),
                xname@ == x.name@,
                forall|m: int| 0 <= m < j ==> text_le((#[trigger] r@[m]).name@, x.name@),
            decreases r@.len() - j,
        {
            j = j + 1;
        }
        let ghost old_r = r@;
        proof {
            old_r.insert_ensures(j as int, x);
            if j < old_r.len() {
                lemma_text_le_total(old_r[j as int].name@, x.name@);
            }
            assert forall|a: int, b: int|
                0 <= a < b < old_r.len() + 1 implies text_le(
                old_r.insert(j as int, x)[a].name@,
                old_r.insert(j as int, x)[b].name@,
            ) by {
                let s = old_r.insert(j as int, x);
                if b < j {
                    assert(s[a] == old_r[a] && s[b] == old_r[b]);
                } else if b == j {
                    assert(s[a] == old_r[a]);
                } else if a == j {
                    assert(s[b] == old_r[b - 1]);
                    if b - 1 > j {
                        lemma_text_le_transitive(x.name@, old_r[j as int].name@, old_r[b - 1].name@);
                    }
                } else if a < j {
                    assert(s[a] == old_r[a] && s[b] == old_r[b - 1]);
                } else {
                    assert(s[a] == old_r[a - 1] && s[b] == old_r[b - 1]);
                }
            }
            assert(old_r.insert(j as int, x).remove(j as int) =~= old_r);
            assert(old_r.insert(j as int, x)[j as int] == x);
            old_r.insert(j as int, x).to_multiset_ensures();
        }
        r.insert(j, x);
        proof {
            let m = old_r.to_multiset();
            assert(r@.to_multiset().remove(x) =~= m);
            assert(r@.to_multiset().count(x) > 0) by {
                assert(r@[j as int] == x);
                assert(r@.contains(x));
            }
            assert(r@.to_multiset() =~= m.insert(x));
            rest@.to_multiset_ensures();
            assert(rest@.push(x).to_multiset() =~= rest@.to_multiset().insert(x));
            assert(before_rest.to_multiset() =~= rest@.to_multiset().insert(x));
            assert(r@.to_multiset().add(rest@.to_multiset()) =~= all.to_multiset());
        }
    }
    assert(rest@.to_multiset() =~= Multiset::<DiscoveredPrinter>::empty()) by {
        assert(rest@ =~= Seq::<DiscoveredPrinter>::empty());
    }
    assert(r@.to_multiset() =~= all.to_multiset());
    r
}

} // verus!
