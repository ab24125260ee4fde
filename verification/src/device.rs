//! Identification of the supported Lian Li UNI hubs and the registry of the
//! hubs that were found.

use vstd::prelude::*;
use vstd::string::*;

verus! {

/// A hub as (vendor id, product id, serial number).
#[derive(Debug)]
pub struct DeviceId(pub u16, pub u16, pub String);

/// What identifies a hub, as plain values: two ids and the serial's characters.
pub type DeviceKey = (u16, u16, Seq<char>);

impl View for DeviceId {
    type V = DeviceKey;

    open spec fn view(&self) -> DeviceKey {
        (self.0, self.1, self.2@)
    }
}

impl Clone for DeviceId {
    fn clone(&self) -> (r: Self)
        ensures
            r == *self,
    {
        DeviceId(self.0, self.1, self.2.clone())
    }
}

impl DeviceId {
    /// Whether two ids name the same hub.
    pub fn same_as(&self, other: &DeviceId) -> (r: bool)
        ensures
            r == (self@ == other@),
    {
        self.0 == other.0 && self.1 == other.1 && self.2 == other.2
    }
}


/// A hub that was just registered is found again with what was registered
/// for it; every other hub keeps what it had; and registering a hub that was
/// already known adds no hub.
pub proof fn lemma_registered_hub_is_found<T>(
    before: DeviceRegistry<T>,
    after: DeviceRegistry<T>,
    k: DeviceKey,
    v: T,
)
    requires
        after@ == before@.insert(k, v),
    ensures
        after@.contains_key(k),
        after@[k] == v,
        forall|other: DeviceKey|
            other != k ==> (#[trigger] after@.contains_key(other) <==> before@.contains_key(other)),
        forall|other: DeviceKey|
            other != k && before@.contains_key(other) ==> #[trigger] after@[other] == before@[other],
        before@.contains_key(k) ==> after@.dom() == before@.dom(),
{
    if before@.contains_key(k) {
        assert(after@.dom() =~= before@.dom());
    }
}

/// The lowercase hexadecimal digit for `d` (0 to 15).
pub open spec fn hex_digit(d: int) -> char {
    seq!['0', '1', '2', '3', '4', '5', '6', '7', '8', '9', 'a', 'b', 'c', 'd', 'e', 'f'][d]
}

/// `v` as exactly four lowercase hexadecimal digits.
pub open spec fn hex4(v: u16) -> Seq<char> {
    let x = v as int;
    seq![hex_digit(x / 4096), hex_digit((x / 256) % 16), hex_digit((x / 16) % 16), hex_digit(x % 16)]
}

/// How an id is shown: `(vvvv, pppp, serial)` with the two ids in
/// four-digit lowercase hexadecimal.
pub open spec fn device_id_text(k: DeviceKey) -> Seq<char> {
    seq!['('] + hex4(k.0) + seq![',', ' '] + hex4(k.1) + seq![',', ' '] + k.2 + seq![')']
}

/// The value of a lowercase hexadecimal digit, or -1 for any other character.
pub open spec fn hex_value(c: char) -> int {
    if '0' <= c && c <= '9' {
        c as int - '0' as int
    } else if 'a' <= c && c <= 'f' {
        c as int - 'a' as int + 10
    } else {
        -1
    }
}

/// An id is shown as "(", four lowercase hexadecimal digits that read back
/// as the vendor id, ", ", four that read back as the product id, ", ", the
/// serial number and ")".
pub proof fn lemma_device_id_text_reads_back(k: DeviceKey)
    ensures
        ({
            let t = device_id_text(k);
            let n = t.len() - 1;
            &&& t.len() == 14 + k.2.len()
            &&& t[0] == '(' && t[5] == ',' && t[6] == ' ' && t[11] == ',' && t[12] == ' '
            &&& t[n] == ')'
            &&& forall|i: int| 1 <= i <= 4 || 7 <= i <= 10 ==> 0 <= #[trigger] hex_value(t[i]) < 16
            &&& 4096 * hex_value(t[1]) + 256 * hex_value(t[2]) + 16 * hex_value(t[3]) + hex_value(t[4])
                == k.0
            &&& 4096 * hex_value(t[7]) + 256 * hex_value(t[8]) + 16 * hex_value(t[9]) + hex_value(
                t[10],
            ) == k.1
            &&& t.subrange(13, n) == k.2
        }),
{
    let t = device_id_text(k);
    let a = k.0 as int;
    let b = k.1 as int;
    assert(forall|d: int| 0 <= d < 16 ==> #[trigger] hex_value(hex_digit(d)) == d) by {
        assert forall|d: int| 0 <= d < 16 implies #[trigger] hex_value(hex_digit(d)) == d by {
            assert(seq!['0', '1', '2', '3', '4', '5', '6', '7', '8', '9', 'a', 'b', 'c', 'd', 'e', 'f'][d]
                == hex_digit(d));
        }
    }
    assert(t[1] == hex_digit(a / 4096));
    assert(t[2] == hex_digit((a / 256) % 16));
    assert(t[3] == hex_digit((a / 16) % 16));
    assert(t[4] == hex_digit(a % 16));
    assert(t[7] == hex_digit(b / 4096));
    assert(t[8] == hex_digit((b / 256) % 16));
    assert(t[9] == hex_digit((b / 16) % 16));
    assert(t[10] == hex_digit(b % 16));
    assert(0 <= a / 4096 < 16);
    assert(0 <= b / 4096 < 16);
    assert(4096 * (a / 4096) + 256 * ((a / 256) % 16) + 16 * ((a / 16) % 16) + a % 16 == a)
        by (nonlinear_arith)
        requires
            0 <= a < 65536,
    ;
    assert(4096 * (b / 4096) + 256 * ((b / 256) % 16) + 16 * ((b / 16) % 16) + b % 16 == b)
        by (nonlinear_arith)
        requires
            0 <= b < 65536,
    ;
    assert(t.subrange(13, t.len() - 1) =~= k.2);
}

fn push_hex_digit(out: &mut String, d: u16)
    requires
        d < 16,
    ensures
        final(out)@ == old(out)@.push(hex_digit(d as int)),
{
    let digits = "0123456789abcdef";
    proof {
        reveal_strlit("0123456789abcdef");
    }
    let one = digits.substring_char(d as usize, d as usize + 1);
    assert(one@ =~= seq![hex_digit(d as int)]);
    out.append(one);
}

fn push_hex4(out: &mut String, v: u16)
    ensures
        final(out)@ == old(out)@ + hex4(v),
{
    push_hex_digit(out, v / 4096);
    push_hex_digit(out, (v / 256) % 16);
    push_hex_digit(out, (v / 16) % 16);
    push_hex_digit(out, v % 16);
    assert(out@ =~= old(out)@ + hex4(v));
}

impl DeviceId {
    /// The id as it is shown to the user (see [`device_id_text`]).
    pub fn to_string(&self) -> (text: String)
        ensures
            text@ == device_id_text(self@),
    {
        let mut out = String::new();
        proof {
            reveal_strlit("(");
            reveal_strlit(", ");
            reveal_strlit(")");
        }
        out.append("(");
        push_hex4(&mut out, self.0);
        out.append(", ");
        push_hex4(&mut out, self.1);
        out.append(", ");
        out.append(self.2.as_str());
        out.append(")");
        assert(out@ =~= device_id_text(self@));
        out
    }
}

} // verus!

verus! {

/// Vendor id of Lian Li.
pub const LIAN_LI_VENDOR_ID: u16 = 0x0cf2;

/// Whether a vendor/product id pair is a supported UNI hub.
pub open spec fn is_supported(vendor_id: u16, product_id: u16) -> bool {
    &&& vendor_id == LIAN_LI_VENDOR_ID
    &&& (product_id == 0x7750 || product_id == 0xa100 || product_id == 0xa101 || product_id
        == 0xa102 || product_id == 0xa103 || product_id == 0xa104 || product_id == 0xa105)
}

/// Whether a vendor/product id pair is a supported UNI hub.
pub fn is_supported_device(vendor_id: u16, product_id: u16) -> (r: bool)
    ensures
        r == is_supported(vendor_id, product_id),
{
    vendor_id == LIAN_LI_VENDOR_ID && (product_id == 0x7750 || product_id == 0xa100 || product_id
        == 0xa101 || product_id == 0xa102 || product_id == 0xa103 || product_id == 0xa104
        || product_id == 0xa105)
}

/// The id under which an enumerated HID device is kept: present only for a
/// supported hub that reports a serial number.
pub fn supported_device_id(vendor_id: u16, product_id: u16, serial: Option<String>) -> (r: Option<
    DeviceId,
>)
    ensures
        r is Some <==> is_supported(vendor_id, product_id) && serial is Some,
        r matches Some(id) ==> id.0 == vendor_id && id.1 == product_id && id.2 == serial->Some_0,
{
    if is_supported_device(vendor_id, product_id) {
        match serial {
            Some(s) => Some(DeviceId(vendor_id, product_id, s)),
            None => None,
        }
    } else {
        None
    }
}

/// The hubs that were found, each with what is needed to reach it.
/// No two entries name the same hub.
pub struct DeviceRegistry<T> {
    entries: Vec<(DeviceId, T)>,
}

/// `i` is an entry of `s` whose id is `k`.
pub open spec fn entry_at<T>(s: Seq<(DeviceId, T)>, k: DeviceKey, i: int) -> bool {
    0 <= i < s.len() && s[i].0@ == k
}

/// The entries as a map from hub to value.
pub open spec fn entries_map<T>(s: Seq<(DeviceId, T)>) -> Map<DeviceKey, T> {
    Map::new(
        |k: DeviceKey| exists|i: int| entry_at(s, k, i),
        |k: DeviceKey| s[choose|i: int| entry_at(s, k, i)].1,
    )
}

/// No two entries name the same hub.
pub open spec fn distinct_ids<T>(s: Seq<(DeviceId, T)>) -> bool {
    forall|i: int, j: int| 0 <= i < s.len() && 0 <= j < s.len() && i != j ==> s[i].0@ != s[j].0@
}

impl<T> View for DeviceRegistry<T> {
    type V = Map<DeviceKey, T>;

    closed spec fn view(&self) -> Map<DeviceKey, T> {
        entries_map(self.entries@)
    }
}

proof fn lemma_entry_value<T>(s: Seq<(DeviceId, T)>, i: int)
    requires
        distinct_ids(s),
        0 <= i < s.len(),
    ensures
        entries_map(s).contains_key(s[i].0@),
        entries_map(s)[s[i].0@] == s[i].1,
{
    let k = s[i].0@;
    assert(entry_at(s, k, i));
    let c = choose|j: int| entry_at(s, k, j);
    assert(c == i);
}

impl<T> DeviceRegistry<T> {
    #[verifier::type_invariant]
    spec fn well_formed(self) -> bool {
        distinct_ids(self.entries@)
    }

    /// The number of hubs.
    pub closed spec fn size(self) -> nat {
        self.entries@.len()
    }

    /// An empty registry.
    pub fn new() -> (r: Self)
        ensures
            r@ == Map::<DeviceKey, T>::empty(),
            r.size() == 0,
    {
        let r = DeviceRegistry { entries: Vec::new() };
        assert(r@ =~= Map::<DeviceKey, T>::empty());
        r
    }

    /// The number of hubs, which is the size of the map's domain.
    pub fn len(&self) -> (n: usize)
        ensures
            n == self.size(),
            self@.dom().finite(),
            self@.dom().len() == self.size(),
    {
        proof {
            use_type_invariant(self);
            self.lemma_dom_len();
        }
        self.entries.len()
    }

    proof fn lemma_dom_len(&self)
        requires
            distinct_ids(self.entries@),
        ensures
            self@.dom().finite(),
            self@.dom().len() == self.size(),
    {
        let s = self.entries@;
        let keys = s.map_values(|e: (DeviceId, T)| e.0@);
        assert(keys.no_duplicates()) by {
            assert forall|i: int, j: int|
                0 <= i < keys.len() && 0 <= j < keys.len() && i != j implies keys[i]
                != keys[j] by {
                assert(s[i].0@ != s[j].0@);
            }
        }
        assert(self@.dom() =~= keys.to_set()) by {
            assert forall|k: DeviceKey| self@.dom().contains(k) implies keys.to_set().contains(k) by {
                let i = choose|i: int| entry_at(s, k, i);
                assert(keys[i] == k);
            }
            assert forall|k: DeviceKey| keys.to_set().contains(k) implies self@.dom().contains(k) by {
                let i = choose|i: int| 0 <= i < keys.len() && keys[i] == k;
                assert(entry_at(s, k, i));
            }
        }
        keys.unique_seq_to_set();
    }

    /// The position of the entry for `id`, if there is one.
    fn position(&self, id: &DeviceId) -> (r: Option<usize>)
        ensures
            r matches Some(i) ==> entry_at(self.entries@, id@, i as int),
            r is None ==> !self@.contains_key(id@),
    {
        let n = self.entries.len();
        for i in 0..n
            invariant
                n == self.entries@.len(),
                forall|j: int| 0 <= j < i ==> self.entries@[j].0@ != id@,
        {
            if self.entries[i].0.same_as(id) {
                return Some(i);
            }
        }
        None
    }

    /// The value kept for `id`, if the hub is known.
    pub fn get(&self, id: &DeviceId) -> (r: Option<&T>)
        ensures
            r matches Some(v) ==> self@.contains_key(id@) && *v == self@[id@],
            r is None ==> !self@.contains_key(id@),
    {
        proof {
            use_type_invariant(self);
        }
        match self.position(id) {
            Some(i) => {
                proof {
                    lemma_entry_value(self.entries@, i as int);
                }
                Some(&self.entries[i].1)
            },
            None => None,
        }
    }

    /// The ids of all known hubs, each once, in no particular order.
    pub fn ids(&self) -> (ids: Vec<DeviceId>)
        ensures
            ids.len() == self.size(),
            forall|i: int| 0 <= i < ids.len() ==> self@.contains_key(#[trigger] ids@[i]@),
            forall|k: DeviceKey| #[trigger]
                self@.contains_key(k) ==> exists|i: int| 0 <= i < ids.len() && ids@[i]@ == k,
            forall|i: int, j: int|
                0 <= i < ids.len() && 0 <= j < ids.len() && i != j ==> ids@[i]@ != ids@[j]@,
    {
        proof {
            use_type_invariant(self);
        }
        let n = self.entries.len();
        let mut ids: Vec<DeviceId> = Vec::new();
        for i in 0..n
            invariant
                n == self.entries@.len(),
                ids.len() == i,
                forall|j: int| 0 <= j < i ==> #[trigger] ids@[j]@ == self.entries@[j].0@,
        {
            ids.push(self.entries[i].0.clone());
        }
        proof {
            let s = self.entries@;
            assert forall|i: int| 0 <= i < ids.len() implies self@.contains_key(#[trigger] ids@[i]@) by {
                assert(entry_at(s, ids@[i]@, i));
            }
            assert forall|k: DeviceKey| #[trigger]
                self@.contains_key(k) implies exists|i: int| 0 <= i < ids.len() && ids@[i]@ == k by {
                let i = choose|i: int| entry_at(s, k, i);
                assert(ids@[i]@ == k);
            }
        }
        ids
    }

    /// Keeps `value` for the HID device with these ids and serial number if
    /// it is a supported hub that reports a serial number, and says whether
    /// it did.
    pub fn register(&mut self, vendor_id: u16, product_id: u16, serial: Option<String>, value: T) -> (added: bool)
        ensures
            added == (is_supported(vendor_id, product_id) && serial is Some),
            added ==> final(self)@ == old(self)@.insert(
                (vendor_id, product_id, serial->Some_0@),
                value,
            ),
            !added ==> *final(self) == *old(self),
    {
        match supported_device_id(vendor_id, product_id, serial) {
            Some(id) => {
                self.insert(id, value);
                true
            },
            None => false,
        }
    }

    /// Keeps `value` for `id`, replacing what was kept for that hub before.
    pub fn insert(&mut self, id: DeviceId, value: T)
        ensures
            final(self)@ == old(self)@.insert(id@, value),
    {
        proof {
            use_type_invariant(&*self);
        }
        let ghost old_entries = self.entries@;
        let ghost k = id@;
        let found = self.position(&id);
        let mut entries: Vec<(DeviceId, T)> = Vec::new();
        std::mem::swap(&mut entries, &mut self.entries);
        match found {
            Some(i) => {
                entries.set(i, (id, value));
                proof {
                    let s = entries@;
                    assert(distinct_ids(s)) by {
                        assert forall|a: int, b: int|
                            0 <= a < s.len() && 0 <= b < s.len() && a != b implies s[a].0@
                            != s[b].0@ by {
                            if a != i && b != i {
                                assert(old_entries[a].0@ != old_entries[b].0@);
                            } else if a == i {
                                assert(old_entries[i as int].0@ != old_entries[b].0@);
                            } else {
                                assert(old_entries[a].0@ != old_entries[i as int].0@);
                            }
                        }
                    }
                    lemma_entry_value(s, i as int);
                    assert(entries_map(s) =~= entries_map(old_entries).insert(k, value)) by {
                        assert forall|kk: DeviceKey| #[trigger]
                            entries_map(s).contains_key(kk) <==> entries_map(old_entries).insert(
                                k,
                                value,
                            ).contains_key(kk) by {
                            if exists|j: int| entry_at(s, kk, j) {
                                let j = choose|j: int| entry_at(s, kk, j);
                                if j != i {
                                    assert(entry_at(old_entries, kk, j));
                                }
                            }
                            if exists|j: int| entry_at(old_entries, kk, j) {
                                let j = choose|j: int| entry_at(old_entries, kk, j);
                                if j != i {
                                    assert(entry_at(s, kk, j));
                                } else {
                                    assert(entry_at(s, kk, j));
                                }
                            }
                        }
                        assert forall|kk: DeviceKey|
                            entries_map(s).contains_key(kk) && kk != k implies #[trigger] entries_map(
                            s)[kk] == entries_map(old_entries)[kk] by {
                            let j = choose|j: int| entry_at(s, kk, j);
                            assert(j != i);
                            assert(entry_at(old_entries, kk, j));
                            lemma_entry_value(s, j);
                            lemma_entry_value(old_entries, j);
                        }
                    }
                }
            },
            None => {
                entries.push((id, value));
                proof {
                    let s = entries@;
                    let n = old_entries.len() as int;
                    assert(s[n].0@ == k);
                    assert(distinct_ids(s)) by {
                        assert forall|a: int, b: int|
                            0 <= a < s.len() && 0 <= b < s.len() && a != b implies s[a].0@
                            != s[b].0@ by {
                            if a != n && b != n {
                                assert(old_entries[a].0@ != old_entries[b].0@);
                            } else if a == n {
                                assert(!entry_at(old_entries, k, b));
                            } else {
                                assert(!entry_at(old_entries, k, a));
                            }
                        }
                    }
                    lemma_entry_value(s, n);
                    assert(entries_map(s) =~= entries_map(old_entries).insert(k, value)) by {
                        assert forall|kk: DeviceKey| #[trigger]
                            entries_map(s).contains_key(kk) <==> entries_map(old_entries).insert(
                                k,
                                value,
                            ).contains_key(kk) by {
                            if exists|j: int| entry_at(s, kk, j) {
                                let j = choose|j: int| entry_at(s, kk, j);
                                if j != n {
                                    assert(entry_at(old_entries, kk, j));
                                }
                            }
                            if exists|j: int| entry_at(old_entries, kk, j) {
                                let j = choose|j: int| entry_at(old_entries, kk, j);
                                assert(entry_at(s, kk, j));
                            }
                        }
                        assert forall|kk: DeviceKey|
                            entries_map(s).contains_key(kk) && kk != k implies #[trigger] entries_map(
                            s)[kk] == entries_map(old_entries)[kk] by {
                            let j = choose|j: int| entry_at(s, kk, j);
                            assert(j != n);
                            assert(entry_at(old_entries, kk, j));
                            lemma_entry_value(s, j);
                            lemma_entry_value(old_entries, j);
                        }
                    }
                }
            },
        }
        self.entries = entries;
    }
}

} // verus!
