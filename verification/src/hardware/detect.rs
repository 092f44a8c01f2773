//! Telling GPU vendors, batteries and architectures apart.
use vstd::prelude::*;
use crate::dotfiles::opt_str_view;
use crate::text::{has_sub, is_prefix, lowercase, starts_with, str_eq, str_to_string, to_lowercase, trim, trim_str, contains_str};

verus! {

/// The GPU families this installer has drivers for.
#[derive(Debug, PartialEq, Eq, Clone, Copy)]
pub enum Gpu {
    Amd,
    Intel,
    Nvidia,
}

/// The vendor that `lspci` output names, checked case-insensitively in this
/// order: NVIDIA, then AMD (or Radeon), then Intel.
pub open spec fn lspci_vendor(output: Seq<char>) -> Option<Seq<char>> {
    let l = lowercase(output);
    if has_sub(l, "nvidia"@) {
        Some("Nvidia"@)
    } else if has_sub(l, "amd"@) || has_sub(l, "radeon"@) {
        Some("Amd"@)
    } else if has_sub(l, "intel"@) {
        Some("Intel"@)
    } else {
        None
    }
}

/// NVIDIA comes first, then AMD, then Intel: output that names NVIDIA gives
/// NVIDIA whatever else it names; output that names AMD or Radeon and not
/// NVIDIA gives AMD whatever else it names (an Intel chipset beside an AMD card
/// among them); Intel is given only when none of NVIDIA, AMD and Radeon
/// occurs; and output that names none of the four gives no vendor. All
/// comparisons ignore case.
pub proof fn law_vendor_priority(output: Seq<char>)
    ensures
        ({
            let l = lowercase(output);
            let nv = has_sub(l, "nvidia"@);
            let amd = has_sub(l, "amd"@) || has_sub(l, "radeon"@);
            let intel = has_sub(l, "intel"@);
            &&& nv ==> lspci_vendor(output) == Some("Nvidia"@)
            &&& !nv && amd ==> lspci_vendor(output) == Some("Amd"@)
            &&& lspci_vendor(output) == Some("Intel"@) <==> !nv && !amd && intel
            &&& lspci_vendor(output) is None <==> !nv && !amd && !intel
        }),
{
    reveal_strlit("Nvidia");
    reveal_strlit("Amd");
    reveal_strlit("Intel");
    assert("Intel"@.len() != "Amd"@.len());
    assert("Intel"@[0] != "Nvidia"@[0]);
}

/// The GPU vendor that `lspci` output names, if it names one this installer knows.
pub fn vendor_from_lspci(output: &str) -> (r: Option<String>)
    ensures
        match r {
            Some(v) => lspci_vendor(output@) == Some(v@),
            None => lspci_vendor(output@) is None,
        },
{
    let l = to_lowercase(output);
    if contains_str(l.as_str(), "nvidia") {
        Some(str_to_string("Nvidia"))
    } else if contains_str(l.as_str(), "amd") || contains_str(l.as_str(), "radeon") {
        Some(str_to_string("Amd"))
    } else if contains_str(l.as_str(), "intel") {
        Some(str_to_string("Intel"))
    } else {
        None
    }
}

/// The GPU vendor: the one `lspci` output names, if it ran and names one; else
/// the vendor the GPU query reported, if it answered; else `Unknown vendor`.
pub open spec fn vendor_choice(lspci: Option<Seq<char>>, queried: Option<Seq<char>>) -> Seq<char> {
    match lspci {
        Some(o) if lspci_vendor(o) is Some => lspci_vendor(o).unwrap(),
        _ => match queried {
            Some(v) => v,
            None => "Unknown vendor"@,
        },
    }
}

/// The GPU vendor, from the output of `lspci` (when it ran) and the vendor
/// that the GPU query reported (when it answered).
pub fn what_vendor(lspci: Option<&str>, queried: Option<&str>) -> (r: String)
    ensures
        r@ == vendor_choice(opt_str_view(lspci), opt_str_view(queried)),
{
    if let Some(o) = lspci {
        if let Some(v) = vendor_from_lspci(o) {
            return v;
        }
    }
    match queried {
        Some(v) => str_to_string(v),
        None => str_to_string("Unknown vendor"),
    }
}

/// The driver family for a vendor name, spelled exactly `Nvidia`, `Amd` or `Intel`.
pub open spec fn gpu_of_vendor(vendor: Seq<char>) -> Option<Gpu> {
    if vendor == "Nvidia"@ {
        Some(Gpu::Nvidia)
    } else if vendor == "Amd"@ {
        Some(Gpu::Amd)
    } else if vendor == "Intel"@ {
        Some(Gpu::Intel)
    } else {
        None
    }
}

/// The driver family to set up for a vendor name; `None` for an unknown GPU.
pub fn driver_for_vendor(vendor: &str) -> (r: Option<Gpu>)
    ensures
        r == gpu_of_vendor(vendor@),
{
    if str_eq(vendor, "Nvidia") {
        Some(Gpu::Nvidia)
    } else if str_eq(vendor, "Amd") {
        Some(Gpu::Amd)
    } else if str_eq(vendor, "Intel") {
        Some(Gpu::Intel)
    } else {
        None
    }
}

/// A power supply entry is a battery when its name starts with `BAT` and its
/// `type` file says `Battery` (surrounding whitespace ignored).
pub fn is_battery_entry(name: &str, type_text: &str) -> (r: bool)
    ensures
        r == (is_prefix("BAT"@, name@) && trim(type_text@) == "Battery"@),
{
    if !starts_with(name, "BAT") {
        return false;
    }
    let t = trim_str(type_text);
    str_eq(t.as_str(), "Battery")
}

/// The only architecture the installer supports is `x86_64`.
pub fn is_supported_architecture(arch: &str) -> (r: bool)
    ensures
        r == (arch@ == "x86_64"@),
{
    str_eq(arch, "x86_64")
}

/// The driver packages of each GPU family.
pub open spec fn driver_package_names(gpu: Gpu) -> Seq<Seq<char>> {
    match gpu {
        Gpu::Amd => seq!["mesa"@, "lib32-mesa"@, "vulkan-radeon"@, "lib32-vulkan-radeon"@],
        Gpu::Intel => seq![
            "mesa"@,
            "lib32-mesa"@,
            "xf86-video-intel"@,
            "vulkan-intel"@,
            "lib32-vulkan-intel"@,
        ],
        Gpu::Nvidia => seq!["nvidia-open"@, "nvidia-utils"@, "lib32-nvidia-utils"@, "egl-wayland"@],
    }
}

fn push_name(v: &mut Vec<String>, s: &str)
    ensures
        crate::text::views(final(v)@) == crate::text::views(old(v)@).push(s@),
{
    let ghost before = v@;
    let c = str_to_string(s);
    v.push(c);
    proof {
        crate::text::lemma_views_push(before, c);
    }
}

/// The driver packages that `pacman` installs for a GPU family.
pub fn driver_packages(gpu: Gpu) -> (r: Vec<String>)
    ensures
        crate::text::views(r@) == driver_package_names(gpu),
{
    let mut v: Vec<String> = Vec::new();
    assert(crate::text::views(v@) =~= Seq::<Seq<char>>::empty());
    match gpu {
        Gpu::Amd => {
            push_name(&mut v, "mesa");
            push_name(&mut v, "lib32-mesa");
            push_name(&mut v, "vulkan-radeon");
            push_name(&mut v, "lib32-vulkan-radeon");
        },
        Gpu::Intel => {
            push_name(&mut v, "mesa");
            push_name(&mut v, "lib32-mesa");
            push_name(&mut v, "xf86-video-intel");
            push_name(&mut v, "vulkan-intel");
            push_name(&mut v, "lib32-vulkan-intel");
        },
        Gpu::Nvidia => {
            push_name(&mut v, "nvidia-open");
            push_name(&mut v, "nvidia-utils");
            push_name(&mut v, "lib32-nvidia-utils");
            push_name(&mut v, "egl-wayland");
        },
    }
    assert(crate::text::views(v@) =~= driver_package_names(gpu));
    v
}

/// The packages whose `installed` flag is false, in order.
pub open spec fn missing_of(packages: Seq<Seq<char>>, installed: Seq<bool>) -> Seq<Seq<char>>
    decreases packages.len(),
{
    if packages.len() == 0 {
        Seq::empty()
    } else {
        let rest = missing_of(packages.drop_last(), installed);
        if installed[packages.len() - 1] {
            rest
        } else {
            rest.push(packages.last())
        }
    }
}

/// The packages that are not installed yet, given whether each one is.
pub fn missing_packages(packages: &Vec<String>, installed: &Vec<bool>) -> (r: Vec<String>)
    requires
        installed@.len() == packages@.len(),
    ensures
        crate::text::views(r@) == missing_of(crate::text::views(packages@), installed@),
{
    let ghost ps = crate::text::views(packages@);
    let mut r: Vec<String> = Vec::new();
    let mut i: usize = 0;
    assert(crate::text::views(r@) =~= missing_of(ps.subrange(0, 0), installed@));
    while i < packages.len()
        invariant
            i <= ps.len(),
            installed@.len() == ps.len(),
            ps == crate::text::views(packages@),
            crate::text::views(r@) == missing_of(ps.subrange(0, i as int), installed@),
        decreases ps.len() - i,
    {
        assert(ps.subrange(0, i + 1).drop_last() =~= ps.subrange(0, i as int));
        if !installed[i] {
            let ghost before = r@;
            let c = crate::text::copy_string(&packages[i]);
            r.push(c);
            proof {
                crate::text::lemma_views_push(before, c);
            }
        }
        i = i + 1;
    }
    assert(ps.subrange(0, ps.len() as int) =~= ps);
    r
}

/// The arguments of the `pacman` call that installs the drivers of a family.
pub fn driver_install_args(gpu: Gpu) -> (r: Vec<String>)
    ensures
        crate::text::views(r@) == seq!["-S"@, "--noconfirm"@, "--needed"@] + driver_package_names(gpu),
{
    let mut v: Vec<String> = Vec::new();
    push_name(&mut v, "-S");
    push_name(&mut v, "--noconfirm");
    push_name(&mut v, "--needed");
    let names = driver_packages(gpu);
    crate::text::extend_strings(&mut v, &names);
    assert(crate::text::views(v@) =~= seq!["-S"@, "--noconfirm"@, "--needed"@] + driver_package_names(gpu));
    v
}

/// The message for a vendor without drivers here.
pub fn unknown_gpu_message(vendor: &str) -> (r: String)
    ensures
        r@ == "Unknown Gpu: "@ + vendor@,
{
    crate::text::concat("Unknown Gpu: ", vendor)
}

} // verus!
