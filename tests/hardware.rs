use std::collections::HashMap;

use client_hw_info::hardware::{
    bytes_to_gb, bytes_to_gib, collect_client_hardware, ethernet_connection, is_gpu_candidate,
    list_pci_gpus, map_vendor_to_api_enum, parse_pci_id, root_disk_space, summarize_hardware,
    CollectError, DiskSpace, Gpu, PciDeviceText, PlatformFacts,
};
use client_hw_info::reference::{resolve, VramTable};
use pciid_parser::schema::{Device, Vendor};
use pciid_parser::Database;

fn vendor(name: &str, devices: &[(u16, &str)]) -> Vendor {
    let mut map = HashMap::new();
    for (id, device_name) in devices {
        map.insert(
            *id,
            Device {
                name: device_name.to_string(),
                subdevices: HashMap::new(),
            },
        );
    }
    Vendor {
        name: name.to_string(),
        devices: map,
    }
}

fn reference_db() -> Database {
    let mut vendors = HashMap::new();
    vendors.insert(0x10de, vendor("NVIDIA Corporation", &[(0x20b2, "A100"), (0x2204, "RTX 3090")]));
    vendors.insert(
        0x1002,
        vendor("Advanced Micro Devices, Inc. [AMD/ATI]", &[(0x740f, "Instinct MI210")]),
    );
    vendors.insert(0x8086, vendor("Intel Corporation", &[(0x56a0, "Arc A770")]));
    vendors.insert(0x102b, vendor("Matrox Electronics Systems Ltd.", &[(0x0536, "Integrated Matrox G200eW3")]));
    Database {
        vendors,
        classes: HashMap::new(),
    }
}

fn vram_table() -> VramTable {
    VramTable::load_gpu_vram_map_from_sections(
        Some(vec![("0x740f".to_string(), 64)]),
        Some(vec![("0x20b2".to_string(), 80), ("0x2204".to_string(), 24)]),
    )
}

fn pci(class_code: &str, vendor: &str, device: &str) -> PciDeviceText {
    PciDeviceText {
        class_code: class_code.to_string(),
        vendor: vendor.to_string(),
        device: device.to_string(),
    }
}

fn facts() -> PlatformFacts {
    PlatformFacts {
        total_memory: 17_179_869_184,
        cpu_count: 16,
        disks: vec![
            DiskSpace {
                mount_point: "/boot".to_string(),
                total_space: 1_000_000_000,
            },
            DiskSpace {
                mount_point: "/".to_string(),
                total_space: 512_110_190_592,
            },
        ],
    }
}

#[test]
fn memory_gib_truncates() {
    assert_eq!(bytes_to_gib(0), 0);
    assert_eq!(bytes_to_gib(1_073_741_823), 0);
    assert_eq!(bytes_to_gib(1_073_741_824), 1);
    assert_eq!(bytes_to_gib(5 * 1_073_741_824 + 7), 5);
    assert_eq!(bytes_to_gib(17_179_869_184), 16);
    assert_eq!(bytes_to_gib(u64::MAX), 17_179_869_183);
}

#[test]
fn storage_gb_truncates() {
    assert_eq!(bytes_to_gb(0), 0);
    assert_eq!(bytes_to_gb(999_999_999), 0);
    assert_eq!(bytes_to_gb(1_999_999_999), 1);
    assert_eq!(bytes_to_gb(512_110_190_592), 512);
    assert_eq!(bytes_to_gb(u64::MAX), 18_446_744_073);
}

#[test]
fn vendor_names_map_to_api_names() {
    assert_eq!(
        map_vendor_to_api_enum("Advanced Micro Devices, Inc. [AMD/ATI]"),
        Some("AMD".to_string())
    );
    assert_eq!(map_vendor_to_api_enum("NVIDIA Corporation"), Some("NVIDIA".to_string()));
    assert_eq!(map_vendor_to_api_enum("Intel Corporation"), Some("INTEL".to_string()));
    assert_eq!(map_vendor_to_api_enum("Matrox Electronics Systems Ltd."), None);
    assert_eq!(map_vendor_to_api_enum("nvidia corporation"), None);
    assert_eq!(map_vendor_to_api_enum(""), None);
}

#[test]
fn display_class_prefix_selects_candidates() {
    assert!(is_gpu_candidate("0x030000\n"));
    assert!(is_gpu_candidate("  0x038000  "));
    assert!(is_gpu_candidate("0x03"));
    assert!(!is_gpu_candidate("0x020000\n"));
    assert!(!is_gpu_candidate("0x0"));
    assert!(!is_gpu_candidate("030000"));
    assert!(!is_gpu_candidate(""));
}

#[test]
fn pci_ids_read_as_hexadecimal() {
    assert_eq!(parse_pci_id("0x10de\n"), Some(0x10de));
    assert_eq!(parse_pci_id("10DE"), Some(0x10de));
    assert_eq!(parse_pci_id(" 0x0x20b2 "), Some(0x20b2));
    assert_eq!(parse_pci_id("0xffff"), Some(0xffff));
    assert_eq!(parse_pci_id("+1f"), Some(0x1f));
    assert_eq!(parse_pci_id("0x10000"), None);
    assert_eq!(parse_pci_id("0xzz"), None);
    assert_eq!(parse_pci_id("0x"), None);
    assert_eq!(parse_pci_id(""), None);
    assert_eq!(parse_pci_id("-1"), None);
    assert_eq!(parse_pci_id("+"), None);
}

#[test]
fn resolver_names_known_devices() {
    let db = reference_db();
    let r = resolve(&db, 0x10de, 0x20b2).unwrap();
    assert_eq!(r.vendor_name, "NVIDIA Corporation");
    assert_eq!(r.device_name, "A100");
    assert!(resolve(&db, 0x10de, 0x1234).is_none());
    assert!(resolve(&db, 0x1234, 0x20b2).is_none());
}

#[test]
fn vram_table_prefers_nvidia_section() {
    let t = VramTable::load_gpu_vram_map_from_sections(
        Some(vec![("0x1111".to_string(), 16), ("0x2222".to_string(), 8)]),
        Some(vec![("0x2222".to_string(), 40)]),
    );
    assert_eq!(t.vram_of("0x1111"), 16);
    assert_eq!(t.vram_of("0x2222"), 40);
    assert_eq!(t.vram_of("0x3333"), 0);
    let empty = VramTable::load_gpu_vram_map_from_sections(None, None);
    assert_eq!(empty.vram_of("0x1111"), 0);
}

#[test]
fn empty_pci_list_gives_unknown_gpu() {
    let db = reference_db();
    let h = collect_client_hardware(&facts(), &vec![], &db, &vram_table()).unwrap();
    assert_eq!(h.gpu_count, 0);
    assert_eq!(h.gpu_vendor, "UNKNOWN");
    assert_eq!(h.gpu_type, "UNKNOWN");
    assert_eq!(h.gpu_memory, 0);
    assert_eq!(h.cpu_cores, 16);
    assert_eq!(h.memory_gb, 16);
    assert_eq!(h.storage_gb, 512);
}

#[test]
fn one_nvidia_a100_is_reported() {
    let db = reference_db();
    let devices = vec![pci("0x030200\n", "0x10de\n", "0x20b2\n")];
    let h = collect_client_hardware(&facts(), &devices, &db, &vram_table()).unwrap();
    assert_eq!(h.gpu_count, 1);
    assert_eq!(h.gpu_vendor, "NVIDIA");
    assert_eq!(h.gpu_type, "A100");
    assert_eq!(h.gpu_memory, 80);
}

#[test]
fn non_display_devices_are_excluded_whatever_their_ids() {
    let db = reference_db();
    let devices = vec![
        pci("0x020000\n", "0xzzzz\n", "not hex\n"),
        pci("0x060400\n", "0x10de\n", "0x20b2\n"),
    ];
    let gpus = list_pci_gpus(&devices, &db, &vram_table()).unwrap();
    assert!(gpus.is_empty());
}

#[test]
fn unknown_devices_do_not_count() {
    let db = reference_db();
    let devices = vec![
        pci("0x030000\n", "0x10de\n", "0x9999\n"),
        pci("0x030000\n", "0x1234\n", "0x20b2\n"),
        pci("0x030000\n", "0x10de\n", "0x20b2\n"),
    ];
    let h = collect_client_hardware(&facts(), &devices, &db, &vram_table()).unwrap();
    assert_eq!(h.gpu_count, 1);
    assert_eq!(h.gpu_type, "A100");
}

#[test]
fn unsupported_vendors_do_not_count() {
    let db = reference_db();
    let devices = vec![pci("0x030000\n", "0x102b\n", "0x0536\n")];
    let h = collect_client_hardware(&facts(), &devices, &db, &vram_table()).unwrap();
    assert_eq!(h.gpu_count, 0);
    assert_eq!(h.gpu_vendor, "UNKNOWN");
}

#[test]
fn first_gpu_describes_the_node() {
    let db = reference_db();
    let devices = vec![
        pci("0x030000\n", "0x8086\n", "0x56a0\n"),
        pci("0x030200\n", "0x10de\n", "0x20b2\n"),
        pci("0x038000\n", "0x1002\n", "0x740f\n"),
    ];
    let gpus = list_pci_gpus(&devices, &db, &vram_table()).unwrap();
    assert_eq!(
        gpus,
        vec![
            Gpu {
                vendor: "INTEL".to_string(),
                gpu_type: "Arc A770".to_string(),
                vram: 0
            },
            Gpu {
                vendor: "NVIDIA".to_string(),
                gpu_type: "A100".to_string(),
                vram: 80
            },
            Gpu {
                vendor: "AMD".to_string(),
                gpu_type: "Instinct MI210".to_string(),
                vram: 64
            },
        ]
    );
    let h = summarize_hardware(&facts(), &gpus);
    assert_eq!(h.gpu_count, 3);
    assert_eq!(h.gpu_vendor, "INTEL");
    assert_eq!(h.gpu_type, "Arc A770");
    assert_eq!(h.gpu_memory, 0);
}

#[test]
fn gpu_count_saturates() {
    let gpus: Vec<Gpu> = (0..300)
        .map(|_| Gpu {
            vendor: "NVIDIA".to_string(),
            gpu_type: "A100".to_string(),
            vram: 80,
        })
        .collect();
    let h = summarize_hardware(&facts(), &gpus);
    assert_eq!(h.gpu_count, 255);
    assert_eq!(h.gpu_vendor, "NVIDIA");
}

#[test]
fn malformed_vendor_id_fails() {
    let db = reference_db();
    let devices = vec![
        pci("0x030000\n", "0x10de\n", "0x20b2\n"),
        pci("0x030000\n", " 0xg0de\n", "0x20b2\n"),
    ];
    assert_eq!(
        collect_client_hardware(&facts(), &devices, &db, &vram_table()),
        Err(CollectError::InvalidVendorId {
            text: "0xg0de".to_string()
        })
    );
}

#[test]
fn malformed_device_id_fails() {
    let db = reference_db();
    let devices = vec![pci("0x030000\n", "0x10de\n", "0x120b2\n")];
    assert_eq!(
        list_pci_gpus(&devices, &db, &vram_table()),
        Err(CollectError::InvalidDeviceId {
            text: "0x120b2".to_string()
        })
    );
}

#[test]
fn root_filesystem_is_found_by_mount_point() {
    assert_eq!(root_disk_space(&facts().disks), Some(512_110_190_592));
    let others = vec![DiskSpace {
        mount_point: "/home".to_string(),
        total_space: 5,
    }];
    assert_eq!(root_disk_space(&others), None);
    let no_root = PlatformFacts {
        total_memory: 1_073_741_824,
        cpu_count: 2,
        disks: others,
    };
    let h = summarize_hardware(&no_root, &vec![]);
    assert_eq!(h.storage_gb, 0);
    assert_eq!(h.memory_gb, 1);
}

#[test]
fn ethernet_interfaces_are_filtered() {
    assert_eq!(
        ethernet_connection("enp3s0", Some("1\n"), Some("1000\n")),
        Some(("enp3s0".to_string(), 1000))
    );
    assert_eq!(
        ethernet_connection("eno1", Some("1\n"), Some("-1\n")),
        Some(("eno1".to_string(), -1))
    );
    assert_eq!(
        ethernet_connection("eth0en", Some(" 1 "), None),
        Some(("eth0en".to_string(), -1))
    );
    assert_eq!(
        ethernet_connection("enp3s0", Some("1"), Some("fast")),
        Some(("enp3s0".to_string(), -1))
    );
    assert_eq!(ethernet_connection("wlan0", Some("1"), Some("300")), None);
    assert_eq!(ethernet_connection("enp3s0", Some("772"), Some("300")), None);
    assert_eq!(ethernet_connection("enp3s0", None, Some("300")), None);
    assert_eq!(ethernet_connection("enp3s0", Some("x"), Some("300")), None);
}
