use ghostlink::host::GpuBackend;
use ghostlink::probe_text::{
    backend_for_pnp_id, contains_text, count_rocm_gpu_lines, cpu_brand_from_lscpu, cpu_brand_from_wmic,
    ioreg_memory_available, lines, mac_compute_capability_of, parse_lspci_gpu, parse_mac_display_info,
    parse_nvidia_smi, parse_rocm_card_models, parse_wmi_gpu_rows, physical_cores_from_cpuinfo, split_char,
    split_csv_fields, starts_with_text, trimmed_nonempty, vulkan_gpu_name,
};

#[test]
fn lines_follow_str_lines() {
    let text = "foo\r\nbar\n\nbaz\r";
    assert_eq!(lines(text), text.lines().collect::<Vec<_>>());
    assert_eq!(lines(text), vec!["foo", "bar", "", "baz\r"]);
    assert!(lines("").is_empty());
    assert_eq!(lines("x\n"), vec!["x"]);
    assert_eq!(lines("\n\n"), vec!["", ""]);
}

#[test]
fn split_and_search_follow_str() {
    assert_eq!(split_char("a:b::c", ':'), vec!["a", "b", "", "c"]);
    assert_eq!(split_char("", ':'), vec![""]);
    assert!(contains_text("GPU[0] : Card", "GPU["));
    assert!(contains_text("abc", ""));
    assert!(!contains_text("ab", "abc"));
    assert!(starts_with_text("physical id\t: 0", "physical id\t: "));
    assert!(!starts_with_text("core", "core id"));
}

#[test]
fn csv_fields_respect_quotes() {
    assert_eq!(split_csv_fields("\"a,b\",c,\"\""), vec!["a,b", "c", ""]);
    assert_eq!(split_csv_fields(""), vec![""]);
    assert_eq!(split_csv_fields("x,"), vec!["x", ""]);
}

#[test]
fn wmi_rows_skip_header_blank_comment_and_short_lines() {
    let text = "\"Name\",\"AdapterRAM\",\"DriverVersion\",\"PNPDeviceID\"\r\n\
                \"NVIDIA GeForce RTX 3080\",\"10737418240\",\"31.0.15.2849\",\"PCI\\VEN_10DE&DEV_2206\"\r\n\
                \r\n\
                #TYPE Selected.Microsoft.Management.Infrastructure.CimInstance\r\n\
                \"Only\",\"Two\"\r\n\
                \" \",\"1\",\"2\"\r\n\
                \"AMD Radeon RX 7900 XTX\",\"4293918720\",\"31.0.21023.2010\"\r\n";
    let rows = parse_wmi_gpu_rows(text);
    assert_eq!(rows.len(), 2);
    assert_eq!(rows[0].name, "NVIDIA GeForce RTX 3080");
    assert_eq!(rows[0].adapter_ram, "10737418240");
    assert_eq!(rows[0].driver_version, "31.0.15.2849");
    assert_eq!(rows[0].pnp_device_id.as_deref(), Some("PCI\\VEN_10DE&DEV_2206"));
    assert_eq!(rows[1].name, "AMD Radeon RX 7900 XTX");
    assert_eq!(rows[1].pnp_device_id, None);
    assert!(parse_wmi_gpu_rows("").is_empty());
}

#[test]
fn pnp_vendor_ids_pick_the_backend() {
    let id = |s: &str| Some(s.to_string());
    assert_eq!(backend_for_pnp_id(&id("PCI\\VEN_10DE&DEV_2206"), false), GpuBackend::Cuda);
    assert_eq!(backend_for_pnp_id(&id("PCI\\VEN_1002&DEV_744C"), false), GpuBackend::Directml);
    assert_eq!(backend_for_pnp_id(&id("PCI\\VEN_1022&DEV_15BF"), true), GpuBackend::Rocm);
    assert_eq!(backend_for_pnp_id(&id("PCI\\VEN_8086&DEV_A7A0"), true), GpuBackend::Directml);
    assert_eq!(backend_for_pnp_id(&id("pci\\ven_14e4&dev_0001"), false), GpuBackend::Vulkan);
    assert_eq!(backend_for_pnp_id(&id("ACPI\\QCOM0C03"), false), GpuBackend::Directml);
    assert_eq!(backend_for_pnp_id(&None, true), GpuBackend::Directml);
}

#[test]
fn mac_display_report_is_read_line_by_line() {
    let text = "Graphics/Displays:\n\n    Apple M2 Pro:\n\n      Chipset Model: Apple M2 Pro\n      Type: GPU\n      \
                VRAM (Dynamic, Max): 16 GB\n      Total Number of Cores: 19\n      Metal Support: Metal 3\n";
    let d = parse_mac_display_info(text);
    assert_eq!(d.name, "Apple M2 Pro");
    assert_eq!(d.vram_tokens, vec!["16".to_string()]);
    assert_eq!(d.metal_support, "Metal 3");
    assert_eq!(d.metal_family, "");
    assert_eq!(mac_compute_capability_of(&d.metal_support, &d.metal_family), "Metal 3");

    let empty = parse_mac_display_info("");
    assert_eq!(empty.name, "Apple GPU");
    assert!(empty.vram_tokens.is_empty());
    assert_eq!(empty.metal_support, "metal");
    assert_eq!(mac_compute_capability_of("metal", "Apple 8"), "apple_metal/Apple 8");
    assert_eq!(mac_compute_capability_of("", ""), "apple_metal");
}

#[test]
fn ioreg_memory_needs_a_gpu_core_count() {
    let text = "  | |   \"gpu-core-count\" = 10\n  | |   \"memory-available\" = \"17179869184\"\n";
    assert_eq!(ioreg_memory_available(text), Some("17179869184".to_string()));
    assert_eq!(ioreg_memory_available("\"memory-available\" = 1\n"), None);
    assert_eq!(ioreg_memory_available("\"gpu-core-count\" = 8\n"), None);
}

#[test]
fn cpu_brand_readers() {
    let lscpu = "Architecture:            x86_64\nModel name:              AMD Ryzen 9 7950X 16-Core Processor\n";
    assert_eq!(cpu_brand_from_lscpu(lscpu), Some("AMD Ryzen 9 7950X 16-Core Processor".to_string()));
    assert_eq!(cpu_brand_from_lscpu("Architecture: x86_64\n"), None);
    let wmic = "\r\nNode,Name\r\nDESKTOP-1,Intel(R) Core(TM) i9-13900K\r\n";
    assert_eq!(cpu_brand_from_wmic(wmic), Some("Intel(R) Core(TM) i9-13900K".to_string()));
    assert_eq!(cpu_brand_from_wmic("Node,Name\r\n"), None);
    assert_eq!(trimmed_nonempty("  my-host \n"), Some("my-host".to_string()));
    assert_eq!(trimmed_nonempty(" \n"), None);
}

#[test]
fn cpuinfo_counts_distinct_package_core_pairs() {
    let text = "processor\t: 0\nphysical id\t: 0\ncore id\t\t: 0\n\nprocessor\t: 1\nphysical id\t: 0\ncore id\t\t: 1\n\n\
                processor\t: 2\nphysical id\t: 0\ncore id\t\t: 0\n\nprocessor\t: 3\nphysical id\t: 1\ncore id\t\t: 0\n";
    assert_eq!(physical_cores_from_cpuinfo(text), Some(3));
    assert_eq!(physical_cores_from_cpuinfo("core id\t\t: 0\n"), None);
    assert_eq!(physical_cores_from_cpuinfo(""), None);
}

#[test]
fn lspci_names_the_first_display_controller() {
    let text = "00:1f.3 \"Audio device\" \"Intel Corporation\" \"Raptor Lake\"\n\
                01:00.0 \"VGA compatible controller\" \"NVIDIA Corporation\" \"GA102 [GeForce RTX 3080]\" -ra1 \"NVIDIA Corporation\" \"Device 1467\"\n";
    assert_eq!(
        parse_lspci_gpu(text),
        Some(("GA102 [GeForce RTX 3080]".to_string(), "01:00.0".to_string()))
    );
    assert_eq!(
        parse_lspci_gpu("02:00.0 \"3D controller\" \"Vendor\"\n"),
        Some(("Vendor".to_string(), "02:00.0".to_string()))
    );
    assert_eq!(parse_lspci_gpu("00:00.0 \"Host bridge\"\n"), None);
}

#[test]
fn vulkan_summary_names_the_gpu() {
    assert_eq!(vulkan_gpu_name("GPU id : 0 (NVIDIA GeForce RTX 4090):\n"), Some("0 (NVIDIA GeForce RTX 4090)".to_string()));
    assert_eq!(vulkan_gpu_name("\tdeviceName = llvmpipe\n"), Some("Vulkan GPU".to_string()));
    assert_eq!(vulkan_gpu_name("Devices:\n"), None);
}

#[test]
fn nvidia_smi_rows() {
    let text = "0, NVIDIA GeForce RTX 4090, 24564, 8.9, 555.42.02\n\n1, NVIDIA RTX A6000, 49140\n";
    let rows = parse_nvidia_smi(text).unwrap();
    assert_eq!(rows.len(), 2);
    assert_eq!(rows[0].name, "NVIDIA GeForce RTX 4090");
    assert_eq!(rows[0].memory_total.as_deref(), Some("24564"));
    assert_eq!(rows[0].compute_capability, "8.9");
    assert_eq!(rows[0].driver_version, "555.42.02");
    assert_eq!(rows[1].compute_capability, "gpu");
    assert_eq!(rows[1].driver_version, "");
    assert!(parse_nvidia_smi("0, A\n1\n").is_none());
    assert!(parse_nvidia_smi("\n").is_none());
}

#[test]
fn rocm_smi_readers() {
    let text = "====== Product Info ======\nGPU[0]\t\t: Card model: \t\tRadeon RX 7900 XTX\nGPU[1]\t\t: Card model\n==========\n";
    assert_eq!(parse_rocm_card_models(text), vec!["Radeon RX 7900 XTX".to_string()]);
    assert_eq!(count_rocm_gpu_lines(text), 2);
    let short = "GPU[0] Card model:\n";
    assert_eq!(parse_rocm_card_models(short), vec!["AMD GPU".to_string()]);
}
