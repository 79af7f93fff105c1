use vstd::prelude::*;

use pciid_parser::Database;

use crate::parse::{dec_i32, hex_u16, parse_hex_u16_from, parse_i32};
use crate::reference::{
    pci_device_names, pci_vendor_names, resolve, vram_or_zero, DeviceReference, VramTable,
};
use crate::text::{
    chars_of, contains, contains_text, has_prefix, opt_text, owned, prefix_at, same_text,
    trim_white,
};

verus! {

/// The hardware snapshot that a heartbeat reports.
#[derive(Debug, Clone, PartialEq, Eq)]
pub struct NodeHardware {
    pub gpu_count: u8,
    pub gpu_vendor: String,
    pub gpu_type: String,
    pub gpu_memory: u64,
    pub cpu_cores: u64,
    pub memory_gb: u64,
    pub storage_gb: u64,
}

/// One supported GPU: its vendor as the fleet API names it, its model and its
/// video memory in GB.
#[derive(Debug, Clone, PartialEq, Eq)]
pub struct Gpu {
    pub vendor: String,
    pub gpu_type: String,
    pub vram: u64,
}

/// The text of the `class`, `vendor` and `device` attributes of one PCI device.
#[derive(Debug, Clone, PartialEq, Eq)]
pub struct PciDeviceText {
    pub class_code: String,
    pub vendor: String,
    pub device: String,
}

/// One mounted filesystem and its capacity in bytes.
#[derive(Debug, Clone, PartialEq, Eq)]
pub struct DiskSpace {
    pub mount_point: String,
    pub total_space: u64,
}

/// What the platform reports of memory, processors and filesystems.
#[derive(Debug, Clone, PartialEq, Eq)]
pub struct PlatformFacts {
    pub total_memory: u64,
    pub cpu_count: u64,
    pub disks: Vec<DiskSpace>,
}

/// Why the hardware could not be collected: a PCI id attribute of a display
/// device that is no hexadecimal 16-bit number (its trimmed text).
#[derive(Debug, Clone, PartialEq, Eq)]
pub enum CollectError {
    InvalidVendorId { text: String },
    InvalidDeviceId { text: String },
}

/// A collection failure, over the text it carries.
pub enum CollectFault {
    VendorId(Seq<char>),
    DeviceId(Seq<char>),
}

impl CollectError {
    pub open spec fn fault(self) -> CollectFault {
        match self {
            CollectError::InvalidVendorId { text } => CollectFault::VendorId(text@),
            CollectError::InvalidDeviceId { text } => CollectFault::DeviceId(text@),
        }
    }
}

/// A GPU as vendor, model and video memory.
pub open spec fn gpu_view(g: Gpu) -> (Seq<char>, Seq<char>, u64) {
    (g.vendor@, g.gpu_type@, g.vram)
}

/// Bytes in decimal gigabytes, rounded down.
pub fn bytes_to_gb(bytes: u64) -> (r: u64)
    ensures
        r == bytes / 1_000_000_000,
{
    bytes / (1000 * 1000 * 1000)
}

/// Bytes in binary gibibytes, rounded down.
pub fn bytes_to_gib(bytes: u64) -> (r: u64)
    ensures
        r == bytes / 1_073_741_824,
{
    bytes / (1024 * 1024 * 1024)
}

/// The fleet API's name for a vendor of the reference database, for the three
/// supported vendors.
pub open spec fn api_vendor(name: Seq<char>) -> Option<Seq<char>> {
    if name == "Advanced Micro Devices, Inc. [AMD/ATI]"@ {
        Some("AMD"@)
    } else if name == "NVIDIA Corporation"@ {
        Some("NVIDIA"@)
    } else if name == "Intel Corporation"@ {
        Some("INTEL"@)
    } else {
        None
    }
}

/// Maps a vendor name of the reference database to the fleet API's vendor
/// name; `None` for an unsupported vendor.
pub fn map_vendor_to_api_enum(vendor_name: &str) -> (r: Option<String>)
    ensures
        match r {
            Some(s) => api_vendor(vendor_name@) == Some(s@),
            None => api_vendor(vendor_name@) is None,
        },
{
    if same_text(vendor_name, "Advanced Micro Devices, Inc. [AMD/ATI]") {
        Some(owned("AMD"))
    } else if same_text(vendor_name, "NVIDIA Corporation") {
        Some(owned("NVIDIA"))
    } else if same_text(vendor_name, "Intel Corporation") {
        Some(owned("INTEL"))
    } else {
        None
    }
}

/// The class code prefix of PCI display controllers.
pub open spec fn display_class_prefix() -> Seq<char> {
    seq!['0', 'x', '0', '3']
}

/// Whether a PCI class attribute names a display controller.
pub open spec fn is_display_class(class_code: Seq<char>) -> bool {
    has_prefix(trim_white(class_code), display_class_prefix())
}

/// Whether a PCI device with this class attribute is a GPU candidate.
pub fn is_gpu_candidate(class_code: &str) -> (r: bool)
    ensures
        r == is_display_class(class_code@),
{
    let v = chars_of(class_code.trim());
    let p = vec!['0', 'x', '0', '3'];
    assert(p@ =~= display_class_prefix());
    prefix_at(&v, 0, &p)
}

/// `s` without every leading `0x`.
pub open spec fn strip_hex_marker(s: Seq<char>) -> Seq<char>
    decreases s.len(),
{
    if s.len() >= 2 && s[0] == '0' && s[1] == 'x' {
        strip_hex_marker(s.subrange(2, s.len() as int))
    } else {
        s
    }
}

/// The id that a PCI `vendor` or `device` attribute holds.
pub open spec fn pci_id_value(raw: Seq<char>) -> Option<u16> {
    hex_u16(strip_hex_marker(trim_white(raw)))
}

/// Reads a PCI id attribute: trimmed, without its `0x` marker, hexadecimal.
pub fn parse_pci_id(raw: &str) -> (r: Option<u16>)
    ensures
        r == pci_id_value(raw@),
{
    let v = chars_of(raw.trim());
    let mut i: usize = 0;
    assert(v@.subrange(0, v.len() as int) =~= v@);
    while v.len() - i >= 2 && v[i] == '0' && v[i + 1] == 'x'
        invariant
            i <= v.len(),
            strip_hex_marker(v@.subrange(i as int, v.len() as int)) == strip_hex_marker(v@),
        decreases v.len() - i,
    {
        let ghost s = v@.subrange(i as int, v.len() as int);
        assert(s.subrange(2, s.len() as int) =~= v@.subrange(i + 2, v.len() as int));
        i = i + 2;
    }
    parse_hex_u16_from(&v, i)
}

/// What one PCI device adds to the GPU list: nothing, one GPU, or a failure.
pub open spec fn device_outcome(d: PciDeviceText, db: Database, vram: Map<Seq<char>, u64>) -> Result<
    Option<(Seq<char>, Seq<char>, u64)>,
    CollectFault,
> {
    if !is_display_class(d.class_code@) {
        Ok(None)
    } else {
        match pci_id_value(d.vendor@) {
            None => Err(CollectFault::VendorId(trim_white(d.vendor@))),
            Some(v) => match pci_id_value(d.device@) {
                None => Err(CollectFault::DeviceId(trim_white(d.device@))),
                Some(dv) => {
                    if pci_device_names(db).contains_key((v, dv)) && api_vendor(
                        pci_vendor_names(db)[v],
                    ) is Some {
                        Ok(
                            Some(
                                (
                                    api_vendor(pci_vendor_names(db)[v])->0,
                                    pci_device_names(db)[(v, dv)],
                                    vram_or_zero(vram, trim_white(d.device@)),
                                ),
                            ),
                        )
                    } else {
                        Ok(None)
                    }
                },
            },
        }
    }
}

/// The supported GPUs among `devices`, in their order, or the first failure.
pub open spec fn gpus_of(
    devices: Seq<PciDeviceText>,
    db: Database,
    vram: Map<Seq<char>, u64>,
) -> Result<Seq<(Seq<char>, Seq<char>, u64)>, CollectFault>
    decreases devices.len(),
{
    if devices.len() == 0 {
        Ok(Seq::empty())
    } else {
        match gpus_of(devices.drop_last(), db, vram) {
            Err(f) => Err(f),
            Ok(g) => match device_outcome(devices.last(), db, vram) {
                Err(f) => Err(f),
                Ok(None) => Ok(g),
                Ok(Some(x)) => Ok(g.push(x)),
            },
        }
    }
}

/// Resolves one PCI device into a supported GPU, if it is one.
pub fn resolve_pci_device(d: &PciDeviceText, db: &Database, vram: &VramTable) -> (r: Result<
    Option<Gpu>,
    CollectError,
>)
    ensures
        match device_outcome(*d, *db, vram@) {
            Err(f) => r matches Err(e) && e.fault() == f,
            Ok(None) => r == Ok::<Option<Gpu>, CollectError>(None),
            Ok(Some(x)) => r matches Ok(Some(g)) && gpu_view(g) == x,
        },
{
    if !is_gpu_candidate(d.class_code.as_str()) {
        return Ok(None);
    }
    let vendor_text = d.vendor.as_str().trim();
    let vendor = match parse_pci_id(d.vendor.as_str()) {
        Some(v) => v,
        None => {
            return Err(CollectError::InvalidVendorId { text: owned(vendor_text) });
        },
    };
    let device_text = d.device.as_str().trim();
    let device = match parse_pci_id(d.device.as_str()) {
        Some(v) => v,
        None => {
            return Err(CollectError::InvalidDeviceId { text: owned(device_text) });
        },
    };
    match resolve(db, vendor, device) {
        None => Ok(None),
        Some(DeviceReference { vendor_name, device_name }) => {
            match map_vendor_to_api_enum(vendor_name.as_str()) {
                None => Ok(None),
                Some(api) => {
                    let vram_gb = vram.vram_of(device_text);
                    Ok(Some(Gpu { vendor: api, gpu_type: device_name, vram: vram_gb }))
                },
            }
        },
    }
}

/// The supported GPUs among the PCI devices, in their order; fails on the
/// first display device whose vendor or device id cannot be read.
pub fn list_pci_gpus(devices: &Vec<PciDeviceText>, db: &Database, vram: &VramTable) -> (r: Result<
    Vec<Gpu>,
    CollectError,
>)
    ensures
        match gpus_of(devices@, *db, vram@) {
            Err(f) => r matches Err(e) && e.fault() == f,
            Ok(g) => r matches Ok(v) && v@.map_values(|x: Gpu| gpu_view(x)) == g,
        },
{
    let mut all_gpus: Vec<Gpu> = Vec::new();
    let mut i: usize = 0;
    assert(devices@.take(0) =~= Seq::<PciDeviceText>::empty());
    assert(all_gpus@.map_values(|x: Gpu| gpu_view(x)) =~= Seq::empty());
    while i < devices.len()
        invariant
            i <= devices.len(),
            gpus_of(devices@.take(i as int), *db, vram@) == Ok::<
                Seq<(Seq<char>, Seq<char>, u64)>,
                CollectFault,
            >(all_gpus@.map_values(|x: Gpu| gpu_view(x))),
        decreases devices.len() - i,
    {
        let ghost before = all_gpus@;
        assert(devices@.take(i + 1).drop_last() =~= devices@.take(i as int));
        assert(devices@.take(i + 1).last() == devices@[i as int]);
        match resolve_pci_device(&devices[i], db, vram) {
            Err(e) => {
                proof {
                    lemma_gpus_of_error_extend(devices@, i + 1, *db, vram@);
                }
                return Err(e);
            },
            Ok(None) => {},
            Ok(Some(g)) => {
                all_gpus.push(g);
                assert(all_gpus@.map_values(|x: Gpu| gpu_view(x)) =~= before.map_values(
                    |x: Gpu| gpu_view(x),
                ).push(gpu_view(g)));
            },
        }
        i = i + 1;
    }
    assert(devices@.take(devices.len() as int) =~= devices@);
    Ok(all_gpus)
}

/// Once a prefix of the devices fails, the whole list fails the same way.
proof fn lemma_gpus_of_error_extend(devices: Seq<PciDeviceText>, n: int, db: Database, vram: Map<Seq<char>, u64>)
    requires
        0 < n <= devices.len(),
        gpus_of(devices.take(n), db, vram) is Err,
    ensures
        gpus_of(devices, db, vram) == gpus_of(devices.take(n), db, vram),
    decreases devices.len() - n,
{
    if n == devices.len() {
        assert(devices.take(n) =~= devices);
    } else {
        assert(devices.take(n + 1).drop_last() =~= devices.take(n));
        lemma_gpus_of_error_extend(devices, n + 1, db, vram);
    }
}

/// A PCI device whose class attribute does not start with the display
/// controller prefix adds nothing to the GPU list, whatever its vendor and
/// device attributes hold; one whose class does, and whose ids read and name a
/// known device of a supported vendor, is added at the end.
pub proof fn lemma_display_class_filter(
    devices: Seq<PciDeviceText>,
    d: PciDeviceText,
    db: Database,
    vram: Map<Seq<char>, u64>,
)
    ensures
        !is_display_class(d.class_code@) ==> gpus_of(devices.push(d), db, vram) == gpus_of(
            devices,
            db,
            vram,
        ),
        is_display_class(d.class_code@) && gpus_of(devices, db, vram) is Ok && pci_id_value(
            d.vendor@,
        ) is Some && pci_id_value(d.device@) is Some && pci_device_names(db).contains_key(
            (pci_id_value(d.vendor@)->0, pci_id_value(d.device@)->0),
        ) && api_vendor(pci_vendor_names(db)[pci_id_value(d.vendor@)->0]) is Some ==> gpus_of(
            devices.push(d),
            db,
            vram,
        ) == Ok::<Seq<(Seq<char>, Seq<char>, u64)>, CollectFault>(
            gpus_of(devices, db, vram)->Ok_0.push(device_outcome(d, db, vram)->Ok_0->0),
        ),
{
    assert(devices.push(d).drop_last() =~= devices);
}

/// A PCI device whose vendor and device ids read, but which the reference
/// database does not know, adds nothing to the GPU list, and so leaves the
/// GPU count as it is.
pub proof fn lemma_unknown_device_excluded(
    devices: Seq<PciDeviceText>,
    d: PciDeviceText,
    db: Database,
    vram: Map<Seq<char>, u64>,
    vendor: u16,
    device: u16,
)
    requires
        pci_id_value(d.vendor@) == Some(vendor),
        pci_id_value(d.device@) == Some(device),
        !pci_device_names(db).contains_key((vendor, device)),
    ensures
        gpus_of(devices.push(d), db, vram) == gpus_of(devices, db, vram),
{
    assert(devices.push(d).drop_last() =~= devices);
}

/// The capacity of the filesystem mounted at `/`, 0 where there is none.
pub open spec fn root_space(disks: Seq<DiskSpace>) -> u64
    decreases disks.len(),
{
    if disks.len() == 0 {
        0
    } else if disks[0].mount_point@ == seq!['/'] {
        disks[0].total_space
    } else {
        root_space(disks.drop_first())
    }
}

/// The capacity in bytes of the filesystem mounted at `/`, if one is.
pub fn root_disk_space(disks: &Vec<DiskSpace>) -> (r: Option<u64>)
    ensures
        match r {
            Some(n) => n == root_space(disks@),
            None => root_space(disks@) == 0 && forall|k: int|
                0 <= k < disks.len() ==> (#[trigger] disks@[k]).mount_point@ != seq!['/'],
        },
{
    let root = vec!['/'];
    let mut i: usize = 0;
    assert(disks@.subrange(0, disks.len() as int) =~= disks@);
    while i < disks.len()
        invariant
            i <= disks.len(),
            root@ == seq!['/'],
            root_space(disks@) == root_space(disks@.subrange(i as int, disks.len() as int)),
            forall|k: int| 0 <= k < i ==> (#[trigger] disks@[k]).mount_point@ != seq!['/'],
        decreases disks.len() - i,
    {
        let ghost rest = disks@.subrange(i as int, disks.len() as int);
        assert(rest[0] == disks@[i as int]);
        let m = chars_of(disks[i].mount_point.as_str());
        if m.len() == 1 && prefix_at(&m, 0, &root) {
            assert(m@ =~= seq!['/']);
            return Some(disks[i].total_space);
        }
        assert(disks@[i as int].mount_point@ != seq!['/']) by {
            if disks@[i as int].mount_point@ == seq!['/'] {
                assert(m@.subrange(0, 1) =~= m@);
            }
        }
        assert(rest.drop_first() =~= disks@.subrange(i + 1, disks.len() as int));
        i = i + 1;
    }
    let ghost rest = disks@.subrange(i as int, disks.len() as int);
    assert(rest.len() == 0);
    None
}

/// The fleet API's placeholder for an absent GPU.
pub open spec fn unknown_text() -> Seq<char> {
    seq!['U', 'N', 'K', 'N', 'O', 'W', 'N']
}

/// The number of GPUs as the snapshot holds it: at most 255.
pub open spec fn gpu_count_of(n: nat) -> u8 {
    if n > 255 {
        255
    } else {
        n as u8
    }
}

/// Whether `h` is the snapshot of the platform facts and GPU list: memory in
/// GiB, root filesystem in GB, and vendor, model and video memory of the first
/// GPU, or the placeholders where there is none.
pub open spec fn describes(
    h: NodeHardware,
    facts: PlatformFacts,
    gpus: Seq<(Seq<char>, Seq<char>, u64)>,
) -> bool {
    &&& h.memory_gb == facts.total_memory / 1_073_741_824
    &&& h.cpu_cores == facts.cpu_count
    &&& h.storage_gb == root_space(facts.disks@) / 1_000_000_000
    &&& h.gpu_count == gpu_count_of(gpus.len())
    &&& gpus.len() == 0 ==> h.gpu_vendor@ == unknown_text() && h.gpu_type@ == unknown_text()
        && h.gpu_memory == 0
    &&& gpus.len() > 0 ==> h.gpu_vendor@ == gpus[0].0 && h.gpu_type@ == gpus[0].1
        && h.gpu_memory == gpus[0].2
}

/// The hardware snapshot of the platform facts and the GPU list.
pub fn summarize_hardware(facts: &PlatformFacts, gpus: &Vec<Gpu>) -> (r: NodeHardware)
    ensures
        describes(r, *facts, gpus@.map_values(|x: Gpu| gpu_view(x))),
{
    proof {
        reveal_strlit("UNKNOWN");
    }
    let storage_gb = match root_disk_space(&facts.disks) {
        Some(total) => bytes_to_gb(total),
        None => 0,
    };
    let mut node_hardware = NodeHardware {
        gpu_count: 0,
        gpu_vendor: owned("UNKNOWN"),
        gpu_type: owned("UNKNOWN"),
        gpu_memory: 0,
        cpu_cores: facts.cpu_count,
        memory_gb: bytes_to_gib(facts.total_memory),
        storage_gb,
    };
    assert("UNKNOWN"@ =~= unknown_text());
    if gpus.len() > 0 {
        node_hardware.gpu_count = if gpus.len() > 255 {
            255
        } else {
            gpus.len() as u8
        };
        node_hardware.gpu_vendor = gpus[0].vendor.clone();
        node_hardware.gpu_type = gpus[0].gpu_type.clone();
        node_hardware.gpu_memory = gpus[0].vram;
    }
    node_hardware
}

/// The hardware snapshot of the platform: its facts, and the supported GPUs
/// among its PCI devices; fails where `list_pci_gpus` fails.
pub fn collect_client_hardware(
    facts: &PlatformFacts,
    devices: &Vec<PciDeviceText>,
    db: &Database,
    vram: &VramTable,
) -> (r: Result<NodeHardware, CollectError>)
    ensures
        match gpus_of(devices@, *db, vram@) {
            Err(f) => r matches Err(e) && e.fault() == f,
            Ok(g) => r matches Ok(h) && describes(h, *facts, g),
        },
{
    let gpus = list_pci_gpus(devices, db, vram)?;
    Ok(summarize_hardware(facts, &gpus))
}

/// A network interface that the inventory lists: its name holds `en`, its
/// `type` attribute reads 1; the speed in Mbps is -1 where it cannot be read.
pub open spec fn ethernet_entry(
    name: Seq<char>,
    kind: Option<Seq<char>>,
    speed: Option<Seq<char>>,
) -> Option<(Seq<char>, i32)> {
    if contains_text(name, seq!['e', 'n']) && kind is Some && dec_i32(trim_white(kind->0)) == Some(
        1i32,
    ) {
        Some(
            (
                name,
                match speed {
                    Some(s) => match dec_i32(trim_white(s)) {
                        Some(x) => x,
                        None => -1i32,
                    },
                    None => -1i32,
                },
            ),
        )
    } else {
        None
    }
}

/// The ethernet connection that a network interface describes, from its name
/// and the text of its `type` and `speed` attributes where they could be read.
pub fn ethernet_connection(name: &str, kind: Option<&str>, speed: Option<&str>) -> (r: Option<
    (String, i32),
>)
    ensures
        match r {
            Some((n, s)) => ethernet_entry(name@, opt_text(kind), opt_text(speed))
                == Some((n@, s)),
            None => ethernet_entry(name@, opt_text(kind), opt_text(speed)) is None,
        },
{
    proof {
        reveal_strlit("en");
    }
    if !contains(name, "en") {
        assert("en"@ =~= seq!['e', 'n']);
        return None;
    }
    assert("en"@ =~= seq!['e', 'n']);
    let k = match kind {
        Some(k) => k,
        None => {
            return None;
        },
    };
    match parse_i32(k.trim()) {
        Some(1) => {},
        _ => {
            return None;
        },
    }
    let s: i32 = match speed {
        Some(t) => match parse_i32(t.trim()) {
            Some(x) => x,
            None => -1,
        },
        None => -1,
    };
    Some((owned(name), s))
}

} // verus!
