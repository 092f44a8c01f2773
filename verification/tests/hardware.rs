use dotfiles_installer::hardware::detect::{
    driver_for_vendor, driver_install_args, driver_packages, is_battery_entry,
    is_supported_architecture, missing_packages, unknown_gpu_message, vendor_from_lspci,
    what_vendor, Gpu,
};
use dotfiles_installer::hardware::modules::{
    lines_of, modules_config_is_ok, modules_line_is_ok, modules_present, update_modules_config,
    update_modules_line, ModuleSet,
};

fn s(x: &str) -> String {
    x.to_string()
}

fn v(xs: &[&str]) -> Vec<String> {
    xs.iter().map(|x| x.to_string()).collect()
}

#[test]
fn vendor_from_pci_listing() {
    assert_eq!(
        vendor_from_lspci("01:00.0 VGA compatible controller: NVIDIA Corporation GA104"),
        Some(s("Nvidia"))
    );
    assert_eq!(
        vendor_from_lspci("03:00.0 VGA: Advanced Micro Devices, Inc. [AMD/ATI] Navi"),
        Some(s("Amd"))
    );
    assert_eq!(vendor_from_lspci("VGA: RADEON HD"), Some(s("Amd")));
    assert_eq!(vendor_from_lspci("00:02.0 VGA: Intel Corporation UHD"), Some(s("Intel")));
    assert_eq!(vendor_from_lspci("nvidia and intel"), Some(s("Nvidia")));
    assert_eq!(vendor_from_lspci("00:01.0 Host bridge: VIA"), None);
}

#[test]
fn vendor_fallbacks() {
    assert_eq!(what_vendor(Some("Intel Corporation"), Some("AMD")), s("Intel"));
    assert_eq!(what_vendor(Some("nothing known"), Some("Qualcomm")), s("Qualcomm"));
    assert_eq!(what_vendor(None, None), s("Unknown vendor"));
    assert_eq!(unknown_gpu_message("Qualcomm"), s("Unknown Gpu: Qualcomm"));
}

#[test]
fn drivers_per_vendor() {
    assert_eq!(driver_for_vendor("Nvidia"), Some(Gpu::Nvidia));
    assert_eq!(driver_for_vendor("Amd"), Some(Gpu::Amd));
    assert_eq!(driver_for_vendor("Intel"), Some(Gpu::Intel));
    assert_eq!(driver_for_vendor("nvidia"), None);
    assert_eq!(
        driver_packages(Gpu::Amd),
        v(&["mesa", "lib32-mesa", "vulkan-radeon", "lib32-vulkan-radeon"])
    );
    assert_eq!(
        driver_packages(Gpu::Nvidia),
        v(&["nvidia-open", "nvidia-utils", "lib32-nvidia-utils", "egl-wayland"])
    );
    assert_eq!(
        driver_install_args(Gpu::Intel),
        v(&[
            "-S",
            "--noconfirm",
            "--needed",
            "mesa",
            "lib32-mesa",
            "xf86-video-intel",
            "vulkan-intel",
            "lib32-vulkan-intel",
        ])
    );
    assert_eq!(
        missing_packages(&v(&["a", "b", "c"]), &vec![true, false, false]),
        v(&["b", "c"])
    );
    assert!(missing_packages(&v(&["a"]), &vec![true]).is_empty());
}

#[test]
fn battery_and_architecture() {
    assert!(is_battery_entry("BAT0", "Battery\n"));
    assert!(is_battery_entry("BAT1", "  Battery "));
    assert!(!is_battery_entry("AC", "Battery"));
    assert!(!is_battery_entry("BAT0", "Mains"));
    assert!(is_supported_architecture("x86_64"));
    assert!(!is_supported_architecture("aarch64"));
}

#[test]
fn amd_modules_line() {
    assert_eq!(update_modules_line("MODULES=()", ModuleSet::Amd), Some(s("MODULES=(amdgpu radeon)")));
    assert_eq!(update_modules_line("MODULES=( )", ModuleSet::Amd), Some(s("MODULES=(amdgpu radeon)")));
    assert_eq!(update_modules_line("MODULES=(amdgpu)", ModuleSet::Amd), Some(s("MODULES=(amdgpu radeon)")));
    assert_eq!(update_modules_line("MODULES=(radeon)", ModuleSet::Amd), Some(s("MODULES=(amdgpu radeon)")));
    assert_eq!(
        update_modules_line("MODULES=(btrfs) # x", ModuleSet::Amd),
        Some(s("MODULES=(btrfs amdgpu radeon) # x"))
    );
    assert_eq!(update_modules_line("MODULES=(radeon amdgpu)", ModuleSet::Amd), None);
    assert_eq!(update_modules_line("HOOKS=(base udev)", ModuleSet::Amd), None);
    assert_eq!(update_modules_line("MODULES=\"\"", ModuleSet::Amd), None);
    assert_eq!(update_modules_line("#MODULES=()", ModuleSet::Amd), None);
}

#[test]
fn nvidia_modules_line() {
    assert_eq!(
        update_modules_line("  MODULES=(btrfs)", ModuleSet::Nvidia),
        Some(s("  MODULES=(btrfs i915 nvidia nvidia_modeset nvidia_uvm nvidia_drm)"))
    );
    assert_eq!(
        update_modules_line("MODULES=()", ModuleSet::Nvidia),
        Some(s("MODULES=(i915 nvidia nvidia_modeset nvidia_uvm nvidia_drm)"))
    );
    assert_eq!(update_modules_line("MODULES=(nvidia_drm)", ModuleSet::Nvidia), None);
}

#[test]
fn rewriting_twice_changes_nothing_more() {
    for m in [ModuleSet::Amd, ModuleSet::Nvidia] {
        for line in ["MODULES=()", "MODULES=(btrfs)", "MODULES=(amdgpu)", "MODULES=(radeon)"] {
            let once = update_modules_line(line, m).unwrap_or_else(|| line.to_string());
            assert_eq!(update_modules_line(&once, m), None);
            assert!(modules_present(&once, m));
        }
    }
}

#[test]
fn badly_ordered_parentheses() {
    assert!(!modules_line_is_ok("MODULES=)x("));
    assert!(modules_line_is_ok("MODULES=(x)"));
    assert!(modules_line_is_ok("HOOKS=)("));
    assert!(!modules_config_is_ok("a\nMODULES=)(\n"));
    assert!(modules_config_is_ok("a\nMODULES=()\n"));
}

#[test]
fn whole_configuration() {
    let conf = "# mkinitcpio\r\nMODULES=()\nHOOKS=(base udev)\n";
    assert_eq!(lines_of(conf), v(&["# mkinitcpio", "MODULES=()", "HOOKS=(base udev)"]));
    let (text, changed) = update_modules_config(conf, ModuleSet::Amd);
    assert!(changed);
    assert_eq!(text, s("# mkinitcpio\nMODULES=(amdgpu radeon)\nHOOKS=(base udev)"));
    assert!(modules_present(&text, ModuleSet::Amd));
    assert!(!modules_present(&text, ModuleSet::Nvidia));
    let (again, changed_again) = update_modules_config(&text, ModuleSet::Amd);
    assert!(!changed_again);
    assert_eq!(again, text);
    assert_eq!(lines_of(""), Vec::<String>::new());
    assert_eq!(lines_of("a\n\nb"), v(&["a", "", "b"]));
}
