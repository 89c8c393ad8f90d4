use palawan_installer::drivers::{
    detect_installed_nvidia_variant, driver_packages, gpu_vendors, lspci_needed, format_gpu_summary, is_gpu_line,
    nvidia_choice_needed, nvidia_driver_installed, nvidia_probe_packages, nvidia_variant_label, parse_gpu_override,
    parse_vendor_from_lspci, parse_vendor_id, vendors_from_drm, vendors_from_lspci, DrmEntry,
    GpuVendor, GpuVendorSet, NvidiaVariant,
};

fn strs(v: &[&str]) -> Vec<String> {
    v.iter().map(|s| s.to_string()).collect()
}

fn set(vs: &[GpuVendor]) -> GpuVendorSet {
    let mut s = GpuVendorSet::new();
    for v in vs {
        s.insert(*v);
    }
    s
}

#[test]
fn vendor_ids() {
    assert_eq!(parse_vendor_id("0x10de\n"), Some(GpuVendor::Nvidia));
    assert_eq!(parse_vendor_id("  0x1002 "), Some(GpuVendor::Amd));
    assert_eq!(parse_vendor_id("8086"), Some(GpuVendor::Intel));
    assert_eq!(parse_vendor_id("0x0x10DE"), Some(GpuVendor::Nvidia));
    assert_eq!(parse_vendor_id("0X10de"), None);
    assert_eq!(parse_vendor_id("0x1234"), None);
    assert_eq!(parse_vendor_id(""), None);
}

#[test]
fn gpu_lines() {
    assert!(is_gpu_line("00:02.0 VGA compatible controller [0300]: Intel Corporation [8086:3e92]"));
    assert!(is_gpu_line("01:00.0 3D controller [0302]: NVIDIA Corporation [10de:1f95]"));
    assert!(is_gpu_line("03:00.0 Display controller [0380]: Advanced Micro Devices [1002:1638]"));
    assert!(!is_gpu_line("00:1f.3 Audio device [0403]: Intel Corporation [8086:a348]"));
}

#[test]
fn lspci_vendor_ids() {
    assert_eq!(
        parse_vendor_from_lspci(
            "01:00.0 VGA compatible controller [0300]: NVIDIA Corporation TU104 [GeForce RTX 2080] [10DE:1e82] (rev a1)"
        ),
        Some("10de".to_string())
    );
    assert_eq!(parse_vendor_from_lspci("no brackets here"), None);
    assert_eq!(parse_vendor_from_lspci("x [abcd]"), None);
    assert_eq!(parse_vendor_from_lspci("x [AbCd"), Some("abcd".to_string()));
    assert_eq!(parse_vendor_from_lspci("x [12345:1]"), None);
}

#[test]
fn lspci_output_vendors() {
    let text = "00:02.0 VGA compatible controller [0300]: Intel Corporation UHD [8086:3e92]\n\
                00:1f.3 Audio device [0403]: Intel Corporation [10de:a348]\r\n\
                01:00.0 3D controller [0302]: NVIDIA Corporation [10de:1f95] (rev a1)\r\n";
    let v = vendors_from_lspci(text);
    assert!(v.contains(GpuVendor::Intel));
    assert!(v.contains(GpuVendor::Nvidia));
    assert!(!v.contains(GpuVendor::Amd));
    assert!(vendors_from_lspci("").is_empty());
}

#[test]
fn drm_vendors() {
    let entries = vec![
        DrmEntry { name: "card0".to_string(), vendor: Some("0x1002\n".to_string()) },
        DrmEntry { name: "renderD128".to_string(), vendor: Some("0x8086\n".to_string()) },
        DrmEntry { name: "card1-HDMI-A-1".to_string(), vendor: None },
        DrmEntry { name: "card1".to_string(), vendor: Some("0xffff".to_string()) },
    ];
    let v = vendors_from_drm(&entries);
    assert!(v.contains(GpuVendor::Amd));
    assert!(!v.contains(GpuVendor::Intel));
    assert!(!v.contains(GpuVendor::Nvidia));
    assert!(vendors_from_drm(&vec![]).is_empty());
}

#[test]
fn gpu_override() {
    let v = parse_gpu_override("nvidia, Intel ,foo").unwrap();
    assert_eq!(v, set(&[GpuVendor::Nvidia, GpuVendor::Intel]));
    assert_eq!(parse_gpu_override("AMD").unwrap(), set(&[GpuVendor::Amd]));
    assert!(parse_gpu_override("foo,bar").is_none());
    assert!(parse_gpu_override("").is_none());
}

#[test]
fn installed_variants() {
    assert_eq!(detect_installed_nvidia_variant(&strs(&["nvidia-dkms", "nvidia-open-dkms"])), Some(NvidiaVariant::Open));
    assert_eq!(detect_installed_nvidia_variant(&strs(&["nvidia-dkms"])), Some(NvidiaVariant::Proprietary));
    assert_eq!(detect_installed_nvidia_variant(&strs(&["vulkan-nouveau"])), Some(NvidiaVariant::Nouveau));
    assert_eq!(detect_installed_nvidia_variant(&strs(&["xf86-video-nouveau"])), Some(NvidiaVariant::Nouveau));
    assert_eq!(detect_installed_nvidia_variant(&strs(&["mesa"])), None);
    assert!(nvidia_driver_installed(&strs(&["nvidia-dkms"])));
    assert!(!nvidia_driver_installed(&vec![]));
    assert_eq!(
        nvidia_probe_packages(),
        strs(&["nvidia-open-dkms", "nvidia-dkms", "xf86-video-nouveau", "vulkan-nouveau"])
    );
}

#[test]
fn labels() {
    assert_eq!(nvidia_variant_label(NvidiaVariant::Open), "open");
    assert_eq!(nvidia_variant_label(NvidiaVariant::Proprietary), "proprietary");
    assert_eq!(nvidia_variant_label(NvidiaVariant::Nouveau), "nouveau");
}

#[test]
fn driver_package_lists() {
    assert_eq!(
        driver_packages(&set(&[GpuVendor::Amd, GpuVendor::Intel]), None),
        strs(&[
            "libva-mesa-driver",
            "mesa",
            "vulkan-radeon",
            "xf86-video-amdgpu",
            "xf86-video-ati",
            "intel-media-driver",
            "libva-intel-driver",
            "vulkan-intel",
        ])
    );
    assert!(driver_packages(&set(&[GpuVendor::Nvidia]), None).is_empty());
    assert_eq!(
        driver_packages(&set(&[GpuVendor::Nvidia]), Some(NvidiaVariant::Proprietary)),
        strs(&["dkms", "libva-nvidia-driver", "nvidia-dkms"])
    );
    assert_eq!(
        driver_packages(&set(&[GpuVendor::Amd, GpuVendor::Nvidia]), Some(NvidiaVariant::Nouveau)),
        strs(&[
            "libva-mesa-driver",
            "mesa",
            "vulkan-radeon",
            "xf86-video-amdgpu",
            "xf86-video-ati",
            "vulkan-nouveau",
            "xf86-video-nouveau",
        ])
    );
    // A variant without an NVIDIA GPU adds nothing.
    assert!(driver_packages(&set(&[]), Some(NvidiaVariant::Open)).is_empty());
}

#[test]
fn summaries() {
    assert_eq!(format_gpu_summary(&set(&[]), Some(NvidiaVariant::Open), None), None);
    assert_eq!(
        format_gpu_summary(&set(&[GpuVendor::Nvidia, GpuVendor::Amd]), Some(NvidiaVariant::Open), None),
        Some("Detected GPU: AMD, NVIDIA (NVIDIA driver: open)".to_string())
    );
    assert_eq!(
        format_gpu_summary(
            &set(&[GpuVendor::Nvidia]),
            Some(NvidiaVariant::Open),
            Some(NvidiaVariant::Proprietary)
        ),
        Some("Detected GPU: NVIDIA (NVIDIA driver: proprietary)".to_string())
    );
    assert_eq!(
        format_gpu_summary(&set(&[GpuVendor::Intel]), None, None),
        Some("Detected GPU: Intel".to_string())
    );
}

#[test]
fn nvidia_choice() {
    assert!(nvidia_choice_needed(&set(&[GpuVendor::Nvidia]), &vec![]));
    assert!(!nvidia_choice_needed(&set(&[GpuVendor::Nvidia]), &strs(&["nvidia-dkms"])));
    assert!(!nvidia_choice_needed(&set(&[GpuVendor::Amd]), &vec![]));
}

#[test]
fn gpu_fallback() {
    let lspci = "01:00.0 3D controller [0302]: NVIDIA Corporation [10de:1f95]\n";
    let drm = set(&[GpuVendor::Amd]);
    assert!(!lspci_needed(&drm));
    assert_eq!(gpu_vendors(&drm, Some(lspci)), set(&[GpuVendor::Amd]));
    let none = set(&[]);
    assert!(lspci_needed(&none));
    assert_eq!(gpu_vendors(&none, Some(lspci)), set(&[GpuVendor::Nvidia]));
    assert_eq!(gpu_vendors(&none, None), set(&[]));
}
