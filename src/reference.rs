use vstd::prelude::*;

use pciid_parser::Database;

use crate::text::same_text;

verus! {

#[verifier::external_type_specification]
#[verifier::external_body]
pub struct ExDatabase(Database);

/// The vendor names that a PCI database holds, by vendor id.
pub uninterp spec fn pci_vendor_names(db: Database) -> Map<u16, Seq<char>>;

/// The device names that a PCI database holds, by vendor id and device id.
pub uninterp spec fn pci_device_names(db: Database) -> Map<(u16, u16), Seq<char>>;

/// Relies on `pciid_parser::Database::get_device_info`: it looks `vendor` up in
/// the database's vendor map and `device` in that vendor's device map, and
/// hands out the names it finds there.
#[verifier::external_body]
fn device_info(db: &Database, vendor: u16, device: u16) -> (r: (Option<String>, Option<String>))
    ensures
        r.0 is Some <==> pci_vendor_names(*db).contains_key(vendor),
        r.0 matches Some(n) ==> n@ == pci_vendor_names(*db)[vendor],
        r.1 is Some <==> pci_device_names(*db).contains_key((vendor, device)),
        r.1 matches Some(n) ==> n@ == pci_device_names(*db)[(vendor, device)],
        r.1 is Some ==> r.0 is Some,
{
    let info = db.get_device_info(vendor, device, 0, 0);
    (info.vendor_name.map(String::from), info.device_name.map(String::from))
}

/// What the reference database says of one PCI device.
pub struct DeviceReference {
    pub vendor_name: String,
    pub device_name: String,
}

/// The vendor and device names that `db` holds for a vendor id and a device
/// id; `None` where it does not know the device.
pub fn resolve(db: &Database, vendor: u16, device: u16) -> (r: Option<DeviceReference>)
    ensures
        r is Some <==> pci_device_names(*db).contains_key((vendor, device)),
        r matches Some(d) ==> pci_vendor_names(*db).contains_key(vendor) && d.vendor_name@
            == pci_vendor_names(*db)[vendor] && d.device_name@ == pci_device_names(*db)[(
        vendor,
        device,
        )],
{
    match device_info(db, vendor, device) {
        (Some(vendor_name), Some(device_name)) => Some(DeviceReference { vendor_name, device_name }),
        _ => None,
    }
}

/// The map that a list of entries builds when each is inserted in turn, so
/// that a later entry replaces an earlier one with the same key.
pub open spec fn entries_map(s: Seq<(String, u64)>) -> Map<Seq<char>, u64>
    decreases s.len(),
{
    if s.len() == 0 {
        Map::empty()
    } else {
        entries_map(s.drop_last()).insert(s.last().0@, s.last().1)
    }
}

/// The entries of an optional section, none where it is absent.
pub open spec fn section_map(section: Option<Vec<(String, u64)>>) -> Map<Seq<char>, u64> {
    match section {
        Some(v) => entries_map(v@),
        None => Map::empty(),
    }
}

/// Video memory in GB by device id text, from the AMD and NVIDIA sections of
/// the reference table; an NVIDIA entry replaces an AMD one with the same key.
pub open spec fn vram_sections_map(
    amd: Option<Vec<(String, u64)>>,
    nvidia: Option<Vec<(String, u64)>>,
) -> Map<Seq<char>, u64> {
    section_map(amd).union_prefer_right(section_map(nvidia))
}

/// The video memory that a table gives to a device id text, 0 where it has none.
pub open spec fn vram_or_zero(m: Map<Seq<char>, u64>, key: Seq<char>) -> u64 {
    if m.contains_key(key) {
        m[key]
    } else {
        0
    }
}

/// A table of video memory sizes in GB, keyed by device id text.
pub struct VramTable {
    entries: Vec<(String, u64)>,
}

impl View for VramTable {
    type V = Map<Seq<char>, u64>;

    closed spec fn view(&self) -> Map<Seq<char>, u64> {
        entries_map(self.entries@)
    }
}

proof fn lemma_entries_concat(a: Seq<(String, u64)>, b: Seq<(String, u64)>)
    ensures
        entries_map(a + b) == entries_map(a).union_prefer_right(entries_map(b)),
    decreases b.len(),
{
    if b.len() == 0 {
        assert(a + b =~= a);
        assert(entries_map(a).union_prefer_right(entries_map(b)) =~= entries_map(a));
    } else {
        assert((a + b).drop_last() =~= a + b.drop_last());
        lemma_entries_concat(a, b.drop_last());
        assert(entries_map(a + b) =~= entries_map(a).union_prefer_right(entries_map(b)));
    }
}

proof fn lemma_entries_tail(s: Seq<(String, u64)>, n: int, key: Seq<char>)
    requires
        0 <= n <= s.len(),
        forall|j: int| n <= j < s.len() ==> (#[trigger] s[j]).0@ != key,
    ensures
        entries_map(s).contains_key(key) == entries_map(s.take(n)).contains_key(key),
        entries_map(s).contains_key(key) ==> entries_map(s)[key] == entries_map(s.take(n))[key],
    decreases s.len(),
{
    if n < s.len() {
        assert forall|j: int| n <= j < s.drop_last().len() implies (
        #[trigger] s.drop_last()[j]).0@ != key by {
            assert(s.drop_last()[j] == s[j]);
        }
        assert(s.last() == s[s.len() - 1]);
        lemma_entries_tail(s.drop_last(), n, key);
        assert(s.drop_last().take(n) =~= s.take(n));
    } else {
        assert(s.take(n) =~= s);
    }
}

impl VramTable {
    /// The table that the AMD section and then the NVIDIA section build.
    pub fn load_gpu_vram_map_from_sections(
        amd: Option<Vec<(String, u64)>>,
        nvidia: Option<Vec<(String, u64)>>,
    ) -> (r: VramTable)
        ensures
            r@ == vram_sections_map(amd, nvidia),
    {
        let ghost (a0, n0) = (amd, nvidia);
        let mut entries: Vec<(String, u64)> = match amd {
            Some(v) => v,
            None => Vec::new(),
        };
        assert(entries_map(entries@) == section_map(a0)) by {
            if a0 is None {
                assert(entries_map(entries@) =~= Map::empty());
            }
        }
        let mut rest: Vec<(String, u64)> = match nvidia {
            Some(v) => v,
            None => Vec::new(),
        };
        assert(entries_map(rest@) == section_map(n0)) by {
            if n0 is None {
                assert(entries_map(rest@) =~= Map::empty());
            }
        }
        let ghost before = entries@;
        let ghost added = rest@;
        entries.append(&mut rest);
        proof {
            lemma_entries_concat(before, added);
        }
        VramTable { entries }
    }

    /// The video memory that the table gives to `device`, 0 where it has none.
    pub fn vram_of(&self, device: &str) -> (r: u64)
        ensures
            r == vram_or_zero(self@, device@),
    {
        let mut i: usize = self.entries.len();
        while i > 0
            invariant
                i <= self.entries.len(),
                forall|j: int| i <= j < self.entries.len() ==> (#[trigger] self.entries@[j]).0@
                    != device@,
            decreases i,
        {
            if same_text(self.entries[i - 1].0.as_str(), device) {
                proof {
                    let s = self.entries@;
                    lemma_entries_tail(s, i as int, device@);
                    assert(s.take(i as int).drop_last() =~= s.take(i - 1));
                    assert(s.take(i as int).last() == s[i - 1]);
                }
                return self.entries[i - 1].1;
            }
            i = i - 1;
        }
        proof {
            let s = self.entries@;
            lemma_entries_tail(s, 0, device@);
            assert(s.take(0) =~= Seq::<(String, u64)>::empty());
        }
        0
    }
}

} // verus!
