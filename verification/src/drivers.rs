use vstd::prelude::*;
use crate::lists::{extend_unique, extend_unique_spec, lemma_extend_unique_contains, lemma_extend_unique_no_duplicates};
use crate::text::{
    chars_eq, chars_of, contains_chars, has_substring, is_hex, is_hex_digit, lines_of, lines_spec,
    lower_chars, lower_seq, name_list, opt_view, seq_join, slice_chars, split_chars, split_on,
    starts_with, starts_with_chars, strings_contain, string_of, join, trim, trim_chars,
};

verus! {

#[derive(Debug, Clone, Copy, PartialEq, Eq, Structural, Hash)]
pub enum GpuVendor {
    Amd,
    Intel,
    Nvidia,
}

#[derive(Debug, Clone, Copy, PartialEq, Eq, Structural)]
pub enum NvidiaVariant {
    Open,
    Proprietary,
    Nouveau,
}

/// A set of GPU vendors.
#[derive(Debug, Clone, Copy, PartialEq, Eq, Structural)]
pub struct GpuVendorSet {
    amd: bool,
    intel: bool,
    nvidia: bool,
}

impl View for GpuVendorSet {
    type V = Set<GpuVendor>;

    closed spec fn view(&self) -> Set<GpuVendor> {
        Set::new(
            |v: GpuVendor|
                match v {
                    GpuVendor::Amd => self.amd,
                    GpuVendor::Intel => self.intel,
                    GpuVendor::Nvidia => self.nvidia,
                },
        )
    }
}

pub open spec fn no_vendor(s: Set<GpuVendor>) -> bool {
    forall|v: GpuVendor| !s.contains(v)
}

impl GpuVendorSet {
    /// The empty set.
    pub fn new() -> (r: Self)
        ensures
            r@ == Set::<GpuVendor>::empty(),
    {
        let r = GpuVendorSet { amd: false, intel: false, nvidia: false };
        assert(r@ =~= Set::<GpuVendor>::empty());
        r
    }

    /// Adds a vendor.
    pub fn insert(&mut self, v: GpuVendor)
        ensures
            final(self)@ == old(self)@.insert(v),
    {
        match v {
            GpuVendor::Amd => self.amd = true,
            GpuVendor::Intel => self.intel = true,
            GpuVendor::Nvidia => self.nvidia = true,
        }
        assert(self@ =~= old(self)@.insert(v));
    }

    /// Whether the vendor is in the set.
    pub fn contains(&self, v: GpuVendor) -> (r: bool)
        ensures
            r == self@.contains(v),
    {
        match v {
            GpuVendor::Amd => self.amd,
            GpuVendor::Intel => self.intel,
            GpuVendor::Nvidia => self.nvidia,
        }
    }

    /// Whether the set holds no vendor.
    pub fn is_empty(&self) -> (r: bool)
        ensures
            r == no_vendor(self@),
    {
        let r = !self.amd && !self.intel && !self.nvidia;
        if !r {
            if self.amd {
                assert(self@.contains(GpuVendor::Amd));
            } else if self.intel {
                assert(self@.contains(GpuVendor::Intel));
            } else {
                assert(self@.contains(GpuVendor::Nvidia));
            }
        }
        r
    }
}

impl Default for GpuVendorSet {
    fn default() -> (r: Self)
        ensures
            r@ == Set::<GpuVendor>::empty(),
    {
        GpuVendorSet::new()
    }
}

// ---------------------------------------------------------------------------
// Vendor identifiers
// ---------------------------------------------------------------------------

/// `s` without any number of leading `0x` prefixes.
pub open spec fn strip_hex_prefixes(s: Seq<char>) -> Seq<char>
    decreases s.len(),
{
    if s.len() >= 2 && s[0] == '0' && s[1] == 'x' {
        strip_hex_prefixes(s.subrange(2, s.len() as int))
    } else {
        s
    }
}

/// The vendor that a PCI vendor id names, compared ignoring ASCII case.
pub open spec fn vendor_for_id(id: Seq<char>) -> Option<GpuVendor> {
    let l = lower_seq(id);
    if l == "1002"@ {
        Some(GpuVendor::Amd)
    } else if l == "8086"@ {
        Some(GpuVendor::Intel)
    } else if l == "10de"@ {
        Some(GpuVendor::Nvidia)
    } else {
        None
    }
}

/// A vendor id as read from sysfs or lspci: surrounding whitespace and leading
/// `0x` prefixes are ignored.
pub open spec fn parse_vendor_id_spec(value: Seq<char>) -> Option<GpuVendor> {
    vendor_for_id(strip_hex_prefixes(trim(value)))
}

fn strip_hex_prefixes_exec(cs: &Vec<char>) -> (r: Vec<char>)
    ensures
        r@ == strip_hex_prefixes(cs@),
{
    let n = cs.len();
    let mut i: usize = 0;
    assert(cs@.subrange(0, n as int) =~= cs@);
    while n - i >= 2 && cs[i] == '0' && cs[i + 1] == 'x'
        invariant
            i <= n == cs.len(),
            strip_hex_prefixes(cs@) == strip_hex_prefixes(cs@.subrange(i as int, n as int)),
        decreases n - i,
    {
        let ghost t = cs@.subrange(i as int, n as int);
        assert(t.subrange(2, t.len() as int) =~= cs@.subrange(i + 2, n as int));
        i += 2;
    }
    slice_chars(cs, i, n)
}

/// The vendor named by a PCI vendor id such as `0x10de`.
pub fn parse_vendor_id(value: &str) -> (r: Option<GpuVendor>)
    ensures
        r == parse_vendor_id_spec(value@),
{
    let cs = chars_of(value);
    let t = trim_chars(&cs);
    let stripped = strip_hex_prefixes_exec(&t);
    let l = lower_chars(&stripped);
    if chars_eq(&l, &chars_of("1002")) {
        Some(GpuVendor::Amd)
    } else if chars_eq(&l, &chars_of("8086")) {
        Some(GpuVendor::Intel)
    } else if chars_eq(&l, &chars_of("10de")) {
        Some(GpuVendor::Nvidia)
    } else {
        None
    }
}

// ---------------------------------------------------------------------------
// lspci output
// ---------------------------------------------------------------------------

pub open spec fn is_gpu_line_spec(line: Seq<char>) -> bool {
    ||| has_substring(line, "VGA compatible controller"@)
    ||| has_substring(line, "3D controller"@)
    ||| has_substring(line, "Display controller"@)
}

/// Whether an lspci line describes a display device.
pub fn is_gpu_line(line: &str) -> (r: bool)
    ensures
        r == is_gpu_line_spec(line@),
{
    let cs = chars_of(line);
    contains_chars(&cs, &chars_of("VGA compatible controller")) || contains_chars(
        &cs,
        &chars_of("3D controller"),
    ) || contains_chars(&cs, &chars_of("Display controller"))
}

/// The first index at or after `k` that holds `[` or `:`, or the length of `s`.
pub open spec fn next_stop(s: Seq<char>, k: int) -> int
    decreases s.len() - k,
{
    if k >= s.len() {
        s.len() as int
    } else if s[k] == '[' || s[k] == ':' {
        k
    } else {
        next_stop(s, k + 1)
    }
}

/// What follows the `[` at index `i`, up to the next `[` or `:`.
pub open spec fn bracket_candidate(s: Seq<char>, i: int) -> Seq<char> {
    s.subrange(i + 1, next_stop(s, i + 1))
}

pub open spec fn is_vendor_candidate(c: Seq<char>) -> bool {
    c.len() == 4 && forall|k: int| 0 <= k < 4 ==> is_hex(#[trigger] c[k])
}

/// The first bracketed four-digit hexadecimal id at or after index `i`, in lower case.
pub open spec fn lspci_vendor_from(s: Seq<char>, i: int) -> Option<Seq<char>>
    decreases s.len() - i,
{
    if i < 0 || i >= s.len() {
        None
    } else if s[i] == '[' && is_vendor_candidate(bracket_candidate(s, i)) {
        Some(lower_seq(bracket_candidate(s, i)))
    } else {
        lspci_vendor_from(s, i + 1)
    }
}

proof fn lemma_next_stop_bounds(s: Seq<char>, k: int)
    requires
        0 <= k <= s.len(),
    ensures
        k <= next_stop(s, k) <= s.len(),
    decreases s.len() - k,
{
    if k < s.len() && !(s[k] == '[' || s[k] == ':') {
        lemma_next_stop_bounds(s, k + 1);
    }
}

fn next_stop_exec(s: &Vec<char>, k: usize) -> (r: usize)
    requires
        k <= s.len(),
    ensures
        r == next_stop(s@, k as int),
        k <= r <= s.len(),
{
    let mut j = k;
    while j < s.len() && s[j] != '[' && s[j] != ':'
        invariant
            k <= j <= s.len(),
            next_stop(s@, k as int) == next_stop(s@, j as int),
        decreases s.len() - j,
    {
        j += 1;
    }
    j
}

fn is_vendor_candidate_exec(c: &Vec<char>) -> (r: bool)
    ensures
        r == is_vendor_candidate(c@),
{
    c.len() == 4 && is_hex_digit(c[0]) && is_hex_digit(c[1]) && is_hex_digit(c[2]) && is_hex_digit(
        c[3],
    )
}

/// The PCI vendor id of an `lspci -nn` line: the first bracketed group made of
/// four hexadecimal digits (before any `:`), in lower case.
pub fn parse_vendor_from_lspci(line: &str) -> (r: Option<String>)
    ensures
        opt_view(r) == lspci_vendor_from(line@, 0),
{
    let cs = chars_of(line);
    let mut i: usize = 0;
    while i < cs.len()
        invariant
            i <= cs.len(),
            cs@ == line@,
            lspci_vendor_from(cs@, 0) == lspci_vendor_from(cs@, i as int),
        decreases cs.len() - i,
    {
        if cs[i] == '[' {
            let stop = next_stop_exec(&cs, i + 1);
            let cand = slice_chars(&cs, i + 1, stop);
            if is_vendor_candidate_exec(&cand) {
                let l = lower_chars(&cand);
                return Some(string_of(&l));
            }
        }
        i += 1;
    }
    None
}

/// The vendor that one lspci line reports, if it is a display device line.
pub open spec fn lspci_line_vendor(line: Seq<char>) -> Option<GpuVendor> {
    if is_gpu_line_spec(line) {
        match lspci_vendor_from(line, 0) {
            Some(id) => parse_vendor_id_spec(id),
            None => None,
        }
    } else {
        None
    }
}

/// The vendors that the display-device lines of `lines` report.
pub open spec fn lspci_vendors_spec(lines: Seq<Seq<char>>) -> Set<GpuVendor> {
    Set::new(|v: GpuVendor| exists|i: int| 0 <= i < lines.len() && lspci_line_vendor(#[trigger] lines[i]) == Some(v))
}

/// The GPU vendors in the output of `lspci -nn`.
pub fn vendors_from_lspci(text: &str) -> (r: GpuVendorSet)
    ensures
        r@ == lspci_vendors_spec(lines_spec(text@)),
{
    let lines = lines_of(text);
    let ghost ls = lines.deep_view();
    let mut vendors = GpuVendorSet::new();
    let mut i: usize = 0;
    assert(vendors@ =~= lspci_vendors_spec(ls.take(0)));
    while i < lines.len()
        invariant
            i <= lines.len(),
            ls == lines.deep_view(),
            vendors@ == lspci_vendors_spec(ls.take(i as int)),
        decreases lines.len() - i,
    {
        let ghost before = vendors@;
        assert(ls[i as int] == lines@[i as int]@);
        let line = lines[i].as_str();
        if is_gpu_line(line) {
            if let Some(id) = parse_vendor_from_lspci(line) {
                if let Some(v) = parse_vendor_id(id.as_str()) {
                    vendors.insert(v);
                }
            }
        }
        let ghost nxt = ls.take(i + 1);
        assert forall|v: GpuVendor| vendors@.contains(v) == lspci_vendors_spec(nxt).contains(v) by {
            if lspci_vendors_spec(nxt).contains(v) {
                let k = choose|k: int| 0 <= k < nxt.len() && lspci_line_vendor(#[trigger] nxt[k]) == Some(v);
                if k < i {
                    assert(ls.take(i as int)[k] == nxt[k]);
                }
            }
            if before.contains(v) {
                let k = choose|k: int| 0 <= k < i && lspci_line_vendor(#[trigger] ls.take(i as int)[k]) == Some(v);
                assert(nxt[k] == ls.take(i as int)[k]);
            }
            if vendors@.contains(v) && !before.contains(v) {
                assert(nxt[i as int] == ls[i as int]);
            }
        }
        assert(vendors@ =~= lspci_vendors_spec(nxt));
        i += 1;
    }
    assert(ls.take(lines.len() as int) =~= ls);
    vendors
}

// ---------------------------------------------------------------------------
// sysfs
// ---------------------------------------------------------------------------

/// One entry of `/sys/class/drm`: its file name and, when it could be read, the
/// contents of its `device/vendor` file.
#[derive(Clone, Debug)]
pub struct DrmEntry {
    pub name: String,
    pub vendor: Option<String>,
}

/// The vendor that one DRM entry reports: only `card*` entries count.
pub open spec fn drm_entry_vendor(name: Seq<char>, vendor: Option<Seq<char>>) -> Option<GpuVendor> {
    if starts_with(name, "card"@) {
        match vendor {
            Some(c) => parse_vendor_id_spec(c),
            None => None,
        }
    } else {
        None
    }
}

pub open spec fn drm_vendors_spec(entries: Seq<DrmEntry>) -> Set<GpuVendor> {
    Set::new(
        |v: GpuVendor|
            exists|i: int|
                0 <= i < entries.len() && drm_entry_vendor(
                    (#[trigger] entries[i]).name@,
                    opt_view(entries[i].vendor),
                ) == Some(v),
    )
}

/// The GPU vendors that the DRM entries report.
pub fn vendors_from_drm(entries: &Vec<DrmEntry>) -> (r: GpuVendorSet)
    ensures
        r@ == drm_vendors_spec(entries@),
{
    let mut vendors = GpuVendorSet::new();
    let card = chars_of("card");
    let mut i: usize = 0;
    assert(vendors@ =~= drm_vendors_spec(entries@.take(0)));
    while i < entries.len()
        invariant
            i <= entries.len(),
            card@ == "card"@,
            vendors@ == drm_vendors_spec(entries@.take(i as int)),
        decreases entries.len() - i,
    {
        let ghost before = vendors@;
        let e = &entries[i];
        if starts_with_chars(&chars_of(e.name.as_str()), &card) {
            if let Some(contents) = &e.vendor {
                if let Some(v) = parse_vendor_id(contents.as_str()) {
                    vendors.insert(v);
                }
            }
        }
        let ghost nxt = entries@.take(i + 1);
        assert forall|v: GpuVendor| vendors@.contains(v) == drm_vendors_spec(nxt).contains(v) by {
            if drm_vendors_spec(nxt).contains(v) {
                let k = choose|k: int|
                    0 <= k < nxt.len() && drm_entry_vendor(
                        (#[trigger] nxt[k]).name@,
                        opt_view(nxt[k].vendor),
                    ) == Some(v);
                if k < i {
                    assert(entries@.take(i as int)[k] == nxt[k]);
                }
            }
            if before.contains(v) {
                let k = choose|k: int|
                    0 <= k < i && drm_entry_vendor(
                        (#[trigger] entries@.take(i as int)[k]).name@,
                        opt_view(entries@.take(i as int)[k].vendor),
                    ) == Some(v);
                assert(nxt[k] == entries@.take(i as int)[k]);
            }
            if vendors@.contains(v) && !before.contains(v) {
                assert(nxt[i as int] == entries@[i as int]);
            }
        }
        assert(vendors@ =~= drm_vendors_spec(nxt));
        i += 1;
    }
    assert(entries@.take(entries.len() as int) =~= entries@);
    vendors
}

/// Every `card*` entry counts, whatever the others report: a vendor is
/// detected from sysfs exactly when some entry whose name starts with `card`
/// has a vendor file that names it. So on a machine with two GPUs of
/// different vendors, both are detected.
pub proof fn law_drm_vendors_every_card(entries: Seq<DrmEntry>, v: GpuVendor)
    ensures
        drm_vendors_spec(entries).contains(v) <==> exists|i: int|
            0 <= i < entries.len() && starts_with((#[trigger] entries[i]).name@, "card"@)
                && entries[i].vendor is Some && parse_vendor_id_spec(entries[i].vendor->0@) == Some(v),
{
    if drm_vendors_spec(entries).contains(v) {
        let i = choose|i: int|
            0 <= i < entries.len() && drm_entry_vendor(
                (#[trigger] entries[i]).name@,
                opt_view(entries[i].vendor),
            ) == Some(v);
        assert(starts_with(entries[i].name@, "card"@));
    }
    if exists|i: int|
        0 <= i < entries.len() && starts_with((#[trigger] entries[i]).name@, "card"@)
            && entries[i].vendor is Some && parse_vendor_id_spec(entries[i].vendor->0@) == Some(v) {
        let i = choose|i: int|
            0 <= i < entries.len() && starts_with((#[trigger] entries[i]).name@, "card"@)
                && entries[i].vendor is Some && parse_vendor_id_spec(entries[i].vendor->0@) == Some(v);
        assert(drm_entry_vendor(entries[i].name@, opt_view(entries[i].vendor)) == Some(v));
    }
}

// ---------------------------------------------------------------------------
// Detection
// ---------------------------------------------------------------------------

/// Whether lspci must be asked: sysfs reported no vendor.
pub fn lspci_needed(drm: &GpuVendorSet) -> (r: bool)
    ensures
        r == no_vendor(drm@),
{
    drm.is_empty()
}

/// The detected vendors: those that sysfs reports when it reports any, else
/// those in the lspci output (none when lspci could not be run).
pub fn gpu_vendors(drm: &GpuVendorSet, lspci_text: Option<&str>) -> (r: GpuVendorSet)
    ensures
        r@ == if !no_vendor(drm@) {
            drm@
        } else {
            match lspci_text {
                Some(t) => lspci_vendors_spec(lines_spec(t@)),
                None => Set::<GpuVendor>::empty(),
            }
        },
{
    if !lspci_needed(drm) {
        return *drm;
    }
    match lspci_text {
        Some(t) => vendors_from_lspci(t),
        None => GpuVendorSet::new(),
    }
}

// ---------------------------------------------------------------------------
// Overrides
// ---------------------------------------------------------------------------

/// The vendor that one override token names: `amd`, `intel` or `nvidia`, with
/// surrounding whitespace ignored and compared ignoring ASCII case.
pub open spec fn override_token_vendor(token: Seq<char>) -> Option<GpuVendor> {
    let n = lower_seq(trim(token));
    if n == "amd"@ {
        Some(GpuVendor::Amd)
    } else if n == "intel"@ {
        Some(GpuVendor::Intel)
    } else if n == "nvidia"@ {
        Some(GpuVendor::Nvidia)
    } else {
        None
    }
}

/// The vendors that a comma-separated override list names.
pub open spec fn override_vendors(value: Seq<char>) -> Set<GpuVendor> {
    let tokens = split_on(value, ',');
    Set::new(|v: GpuVendor| exists|i: int| 0 <= i < tokens.len() && override_token_vendor(#[trigger] tokens[i]) == Some(v))
}

/// The vendors named by a comma-separated list such as `nvidia,intel`; `None`
/// when it names none.
pub fn parse_gpu_override(value: &str) -> (r: Option<GpuVendorSet>)
    ensures
        match r {
            Some(s) => s@ == override_vendors(value@) && !no_vendor(s@),
            None => no_vendor(override_vendors(value@)),
        },
{
    let cs = chars_of(value);
    let tokens = split_chars(&cs, ',');
    let ghost ts = tokens.deep_view();
    let amd = chars_of("amd");
    let intel = chars_of("intel");
    let nvidia = chars_of("nvidia");
    let mut vendors = GpuVendorSet::new();
    let mut i: usize = 0;
    let ghost spec_at = |k: int| Set::new(|v: GpuVendor| exists|j: int| 0 <= j < k && override_token_vendor(#[trigger] ts[j]) == Some(v));
    assert(vendors@ =~= spec_at(0));
    while i < tokens.len()
        invariant
            i <= tokens.len(),
            ts == tokens.deep_view(),
            ts == split_on(value@, ','),
            amd@ == "amd"@,
            intel@ == "intel"@,
            nvidia@ == "nvidia"@,
            spec_at == (|k: int| Set::new(|v: GpuVendor| exists|j: int| 0 <= j < k && override_token_vendor(#[trigger] ts[j]) == Some(v))),
            vendors@ == spec_at(i as int),
        decreases tokens.len() - i,
    {
        let ghost before = vendors@;
        assert(ts[i as int] =~= tokens@[i as int]@);
        let t = trim_chars(&tokens[i]);
        let n = lower_chars(&t);
        if chars_eq(&n, &amd) {
            vendors.insert(GpuVendor::Amd);
        } else if chars_eq(&n, &intel) {
            vendors.insert(GpuVendor::Intel);
        } else if chars_eq(&n, &nvidia) {
            vendors.insert(GpuVendor::Nvidia);
        }
        assert forall|v: GpuVendor| vendors@.contains(v) == spec_at(i + 1).contains(v) by {
            if spec_at(i + 1).contains(v) {
                let k = choose|k: int| 0 <= k < i + 1 && override_token_vendor(#[trigger] ts[k]) == Some(v);
                if k < i {
                    assert(spec_at(i as int).contains(v));
                }
            }
            if before.contains(v) {
                let k = choose|k: int| 0 <= k < i && override_token_vendor(#[trigger] ts[k]) == Some(v);
                assert(spec_at(i + 1).contains(v));
            }
            if vendors@.contains(v) && !before.contains(v) {
                assert(override_token_vendor(ts[i as int]) == Some(v));
                assert(spec_at(i + 1).contains(v));
            }
        }
        assert(vendors@ =~= spec_at(i + 1));
        i += 1;
    }
    assert(vendors@ =~= override_vendors(value@));
    if vendors.is_empty() {
        None
    } else {
        Some(vendors)
    }
}

// ---------------------------------------------------------------------------
// NVIDIA drivers
// ---------------------------------------------------------------------------

pub open spec fn nvidia_variant_label_spec(v: NvidiaVariant) -> Seq<char> {
    match v {
        NvidiaVariant::Open => "open"@,
        NvidiaVariant::Proprietary => "proprietary"@,
        NvidiaVariant::Nouveau => "nouveau"@,
    }
}

/// The short name of a driver variant.
pub fn nvidia_variant_label(variant: NvidiaVariant) -> (r: &'static str)
    ensures
        r@ == nvidia_variant_label_spec(variant),
{
    match variant {
        NvidiaVariant::Open => "open",
        NvidiaVariant::Proprietary => "proprietary",
        NvidiaVariant::Nouveau => "nouveau",
    }
}

/// The packages whose presence tells which NVIDIA driver is installed.
pub open spec fn spec_nvidia_probe_packages() -> Seq<Seq<char>> {
    seq!["nvidia-open-dkms"@, "nvidia-dkms"@, "xf86-video-nouveau"@, "vulkan-nouveau"@]
}

/// The packages to look for when telling which NVIDIA driver is installed.
pub fn nvidia_probe_packages() -> (r: Vec<String>)
    ensures
        r.deep_view() == spec_nvidia_probe_packages(),
{
    let r = name_list(&["nvidia-open-dkms", "nvidia-dkms", "xf86-video-nouveau", "vulkan-nouveau"]);
    assert(r.deep_view() =~= spec_nvidia_probe_packages());
    r
}

/// The installed driver variant, given the names of the installed packages:
/// the open kernel modules win over the proprietary ones, which win over nouveau.
pub open spec fn installed_variant_spec(installed: Seq<Seq<char>>) -> Option<NvidiaVariant> {
    if installed.contains("nvidia-open-dkms"@) {
        Some(NvidiaVariant::Open)
    } else if installed.contains("nvidia-dkms"@) {
        Some(NvidiaVariant::Proprietary)
    } else if installed.contains("xf86-video-nouveau"@) || installed.contains("vulkan-nouveau"@) {
        Some(NvidiaVariant::Nouveau)
    } else {
        None
    }
}

/// The NVIDIA driver variant that is installed, given the installed packages.
pub fn detect_installed_nvidia_variant(installed: &Vec<String>) -> (r: Option<NvidiaVariant>)
    ensures
        r == installed_variant_spec(installed.deep_view()),
{
    if strings_contain(installed, "nvidia-open-dkms") {
        return Some(NvidiaVariant::Open);
    }
    if strings_contain(installed, "nvidia-dkms") {
        return Some(NvidiaVariant::Proprietary);
    }
    if strings_contain(installed, "xf86-video-nouveau") || strings_contain(installed, "vulkan-nouveau") {
        return Some(NvidiaVariant::Nouveau);
    }
    None
}

/// Whether some NVIDIA driver is installed, given the installed packages.
pub fn nvidia_driver_installed(installed: &Vec<String>) -> (r: bool)
    ensures
        r == installed_variant_spec(installed.deep_view()) is Some,
{
    detect_installed_nvidia_variant(installed).is_some()
}

/// Whether the user must choose an NVIDIA driver: an NVIDIA GPU is present and
/// no NVIDIA driver is installed.
pub fn nvidia_choice_needed(vendors: &GpuVendorSet, installed: &Vec<String>) -> (r: bool)
    ensures
        r == (vendors@.contains(GpuVendor::Nvidia) && installed_variant_spec(installed.deep_view()) is None),
{
    vendors.contains(GpuVendor::Nvidia) && !nvidia_driver_installed(installed)
}

// ---------------------------------------------------------------------------
// Driver packages
// ---------------------------------------------------------------------------

pub open spec fn amd_driver_packages() -> Seq<Seq<char>> {
    seq!["libva-mesa-driver"@, "mesa"@, "vulkan-radeon"@, "xf86-video-amdgpu"@, "xf86-video-ati"@]
}

pub open spec fn intel_driver_packages() -> Seq<Seq<char>> {
    seq!["intel-media-driver"@, "libva-intel-driver"@, "mesa"@, "vulkan-intel"@]
}

pub open spec fn nvidia_driver_packages(v: NvidiaVariant) -> Seq<Seq<char>> {
    match v {
        NvidiaVariant::Open => seq!["dkms"@, "libva-nvidia-driver"@, "nvidia-open-dkms"@],
        NvidiaVariant::Proprietary => seq!["dkms"@, "libva-nvidia-driver"@, "nvidia-dkms"@],
        NvidiaVariant::Nouveau => seq![
            "libva-mesa-driver"@,
            "mesa"@,
            "vulkan-nouveau"@,
            "xf86-video-nouveau"@,
        ],
    }
}

/// The AMD packages if AMD is present, then the Intel packages if Intel is
/// present, then the packages of the NVIDIA variant if NVIDIA is present and a
/// variant is chosen; each name once, at its first place.
pub open spec fn driver_packages_spec(vendors: Set<GpuVendor>, variant: Option<NvidiaVariant>) -> Seq<Seq<char>> {
    let p0 = Seq::<Seq<char>>::empty();
    let p1 = if vendors.contains(GpuVendor::Amd) {
        extend_unique_spec(p0, amd_driver_packages())
    } else {
        p0
    };
    let p2 = if vendors.contains(GpuVendor::Intel) {
        extend_unique_spec(p1, intel_driver_packages())
    } else {
        p1
    };
    match variant {
        Some(v) if vendors.contains(GpuVendor::Nvidia) => extend_unique_spec(p2, nvidia_driver_packages(v)),
        _ => p2,
    }
}

/// The driver packages to install for the detected vendors.
pub fn driver_packages(vendors: &GpuVendorSet, nvidia_variant: Option<NvidiaVariant>) -> (r: Vec<String>)
    ensures
        r.deep_view() == driver_packages_spec(vendors@, nvidia_variant),
        r.deep_view().no_duplicates(),
{
    let mut packages: Vec<String> = Vec::new();
    let ghost p0 = packages.deep_view();
    assert(p0 =~= Seq::<Seq<char>>::empty());
    if vendors.contains(GpuVendor::Amd) {
        let names = name_list(
            &["libva-mesa-driver", "mesa", "vulkan-radeon", "xf86-video-amdgpu", "xf86-video-ati"],
        );
        assert(names.deep_view() =~= amd_driver_packages());
        extend_unique(&mut packages, &names);
    }
    let ghost p1 = packages.deep_view();
    if vendors.contains(GpuVendor::Intel) {
        let names = name_list(&["intel-media-driver", "libva-intel-driver", "mesa", "vulkan-intel"]);
        assert(names.deep_view() =~= intel_driver_packages());
        extend_unique(&mut packages, &names);
    }
    let ghost p2 = packages.deep_view();
    if vendors.contains(GpuVendor::Nvidia) {
        if let Some(variant) = nvidia_variant {
            let names = match variant {
                NvidiaVariant::Open => name_list(&["dkms", "libva-nvidia-driver", "nvidia-open-dkms"]),
                NvidiaVariant::Proprietary => name_list(&["dkms", "libva-nvidia-driver", "nvidia-dkms"]),
                NvidiaVariant::Nouveau => name_list(
                    &["libva-mesa-driver", "mesa", "vulkan-nouveau", "xf86-video-nouveau"],
                ),
            };
            assert(names.deep_view() =~= nvidia_driver_packages(variant));
            extend_unique(&mut packages, &names);
        }
    }
    proof {
        assert(p0.no_duplicates());
        lemma_extend_unique_no_duplicates(p0, amd_driver_packages());
        lemma_extend_unique_no_duplicates(p1, intel_driver_packages());
        if let Some(v) = nvidia_variant {
            lemma_extend_unique_no_duplicates(p2, nvidia_driver_packages(v));
        }
    }
    packages
}

/// Which driver each choice brings: the open NVIDIA kernel modules
/// (`nvidia-open-dkms`) exactly when an NVIDIA GPU is present and the open
/// variant is chosen, the proprietary ones (`nvidia-dkms`) exactly when it is
/// present and the proprietary variant is chosen, nouveau
/// (`xf86-video-nouveau`) exactly when it is present and nouveau is chosen;
/// the AMD Vulkan driver exactly when an AMD GPU is present, the Intel one
/// exactly when an Intel GPU is present.
pub proof fn law_driver_packages_per_choice(vendors: Set<GpuVendor>, variant: Option<NvidiaVariant>)
    ensures
        driver_packages_spec(vendors, variant).contains("nvidia-open-dkms"@) <==> (vendors.contains(
            GpuVendor::Nvidia,
        ) && variant == Some(NvidiaVariant::Open)),
        driver_packages_spec(vendors, variant).contains("nvidia-dkms"@) <==> (vendors.contains(
            GpuVendor::Nvidia,
        ) && variant == Some(NvidiaVariant::Proprietary)),
        driver_packages_spec(vendors, variant).contains("xf86-video-nouveau"@) <==> (vendors.contains(
            GpuVendor::Nvidia,
        ) && variant == Some(NvidiaVariant::Nouveau)),
        driver_packages_spec(vendors, variant).contains("vulkan-radeon"@) <==> vendors.contains(GpuVendor::Amd),
        driver_packages_spec(vendors, variant).contains("vulkan-intel"@) <==> vendors.contains(GpuVendor::Intel),
{
    reveal_strlit("nvidia-open-dkms");
    reveal_strlit("nvidia-dkms");
    reveal_strlit("xf86-video-nouveau");
    reveal_strlit("vulkan-radeon");
    reveal_strlit("vulkan-intel");
    reveal_strlit("libva-mesa-driver");
    reveal_strlit("mesa");
    reveal_strlit("xf86-video-amdgpu");
    reveal_strlit("xf86-video-ati");
    reveal_strlit("intel-media-driver");
    reveal_strlit("libva-intel-driver");
    reveal_strlit("dkms");
    reveal_strlit("libva-nvidia-driver");
    reveal_strlit("vulkan-nouveau");
    assert("nvidia-open-dkms"@.len() == 16);
    assert("nvidia-dkms"@.len() == 11);
    assert("xf86-video-nouveau"@.len() == 18 && "xf86-video-nouveau"@[0] == 'x');
    assert("vulkan-radeon"@.len() == 13);
    assert("vulkan-intel"@.len() == 12);
    assert("libva-mesa-driver"@.len() == 17);
    assert("mesa"@.len() == 4);
    assert("xf86-video-amdgpu"@.len() == 17);
    assert("xf86-video-ati"@.len() == 14);
    assert("intel-media-driver"@.len() == 18 && "intel-media-driver"@[0] == 'i');
    assert("libva-intel-driver"@.len() == 18 && "libva-intel-driver"@[0] == 'l');
    assert("dkms"@.len() == 4);
    assert("libva-nvidia-driver"@.len() == 19);
    assert("vulkan-nouveau"@.len() == 14);
    let p0 = Seq::<Seq<char>>::empty();
    let p1 = if vendors.contains(GpuVendor::Amd) {
        extend_unique_spec(p0, amd_driver_packages())
    } else {
        p0
    };
    let p2 = if vendors.contains(GpuVendor::Intel) {
        extend_unique_spec(p1, intel_driver_packages())
    } else {
        p1
    };
    let names = seq!["nvidia-open-dkms"@, "nvidia-dkms"@, "xf86-video-nouveau"@, "vulkan-radeon"@, "vulkan-intel"@];
    assert forall|k: int| 0 <= k < names.len() implies {
        let x = #[trigger] names[k];
        &&& p2.contains(x) == ((vendors.contains(GpuVendor::Amd) && amd_driver_packages().contains(x)) || (
        vendors.contains(GpuVendor::Intel) && intel_driver_packages().contains(x)))
        &&& driver_packages_spec(vendors, variant).contains(x) == (p2.contains(x) || match variant {
            Some(v) => vendors.contains(GpuVendor::Nvidia) && nvidia_driver_packages(v).contains(x),
            None => false,
        })
    } by {
        let x = names[k];
        lemma_extend_unique_contains(p0, amd_driver_packages(), x);
        lemma_extend_unique_contains(p1, intel_driver_packages(), x);
        if let Some(v) = variant {
            lemma_extend_unique_contains(p2, nvidia_driver_packages(v), x);
        }
    }
    assert(names[0] == "nvidia-open-dkms"@);
    assert(names[1] == "nvidia-dkms"@);
    assert(names[2] == "xf86-video-nouveau"@);
    assert(names[3] == "vulkan-radeon"@);
    assert(names[4] == "vulkan-intel"@);
    assert(amd_driver_packages().contains("vulkan-radeon"@)) by {
        assert(amd_driver_packages()[2] == "vulkan-radeon"@);
    }
    assert(intel_driver_packages().contains("vulkan-intel"@)) by {
        assert(intel_driver_packages()[3] == "vulkan-intel"@);
    }
    assert(nvidia_driver_packages(NvidiaVariant::Open).contains("nvidia-open-dkms"@)) by {
        assert(nvidia_driver_packages(NvidiaVariant::Open)[2] == "nvidia-open-dkms"@);
    }
    assert(nvidia_driver_packages(NvidiaVariant::Proprietary).contains("nvidia-dkms"@)) by {
        assert(nvidia_driver_packages(NvidiaVariant::Proprietary)[2] == "nvidia-dkms"@);
    }
    assert(nvidia_driver_packages(NvidiaVariant::Nouveau).contains("xf86-video-nouveau"@)) by {
        assert(nvidia_driver_packages(NvidiaVariant::Nouveau)[3] == "xf86-video-nouveau"@);
    }
}

/// Which NVIDIA driver is found installed. The open kernel modules, when
/// installed, make it the open driver whatever else is installed; otherwise
/// the proprietary modules make it the proprietary driver; otherwise either
/// nouveau package makes it nouveau; with none of these four packages no
/// driver is found. What is found is a variant some of whose driver packages
/// are installed, and once the driver packages chosen for a variant on a
/// machine with an NVIDIA GPU are installed, exactly that variant is found.
pub proof fn law_installed_variant(installed: Seq<Seq<char>>, vendors: Set<GpuVendor>, v: NvidiaVariant)
    ensures
        installed.contains("nvidia-open-dkms"@) ==> installed_variant_spec(installed) == Some(
            NvidiaVariant::Open,
        ),
        !installed.contains("nvidia-open-dkms"@) && installed.contains("nvidia-dkms"@)
            ==> installed_variant_spec(installed) == Some(NvidiaVariant::Proprietary),
        !installed.contains("nvidia-open-dkms"@) && !installed.contains("nvidia-dkms"@) && (installed.contains(
            "xf86-video-nouveau"@,
        ) || installed.contains("vulkan-nouveau"@)) ==> installed_variant_spec(installed) == Some(
            NvidiaVariant::Nouveau,
        ),
        !installed.contains("nvidia-open-dkms"@) && !installed.contains("nvidia-dkms"@)
            && !installed.contains("xf86-video-nouveau"@) && !installed.contains("vulkan-nouveau"@)
            ==> installed_variant_spec(installed) is None,
        installed_variant_spec(installed) matches Some(w) ==> exists|p: Seq<char>|
            #[trigger] nvidia_driver_packages(w).contains(p) && installed.contains(p),
        vendors.contains(GpuVendor::Nvidia) ==> installed_variant_spec(driver_packages_spec(vendors, Some(v)))
            == Some(v),
{
    let open = "nvidia-open-dkms"@;
    let prop = "nvidia-dkms"@;
    let xf = "xf86-video-nouveau"@;
    let vk = "vulkan-nouveau"@;
    assert(nvidia_driver_packages(NvidiaVariant::Open)[2] == open);
    assert(nvidia_driver_packages(NvidiaVariant::Proprietary)[2] == prop);
    assert(nvidia_driver_packages(NvidiaVariant::Nouveau)[2] == vk);
    assert(nvidia_driver_packages(NvidiaVariant::Nouveau)[3] == xf);
    assert(nvidia_driver_packages(NvidiaVariant::Open).contains(open));
    assert(nvidia_driver_packages(NvidiaVariant::Proprietary).contains(prop));
    assert(nvidia_driver_packages(NvidiaVariant::Nouveau).contains(vk));
    assert(nvidia_driver_packages(NvidiaVariant::Nouveau).contains(xf));
    law_driver_packages_per_choice(vendors, Some(v));
}

// ---------------------------------------------------------------------------
// Summary line
// ---------------------------------------------------------------------------

pub open spec fn vendor_names_spec(vendors: Set<GpuVendor>) -> Seq<Seq<char>> {
    (if vendors.contains(GpuVendor::Amd) { seq!["AMD"@] } else { Seq::empty() }) + (if vendors.contains(
        GpuVendor::Intel,
    ) {
        seq!["Intel"@]
    } else {
        Seq::empty()
    }) + (if vendors.contains(GpuVendor::Nvidia) { seq!["NVIDIA"@] } else { Seq::empty() })
}

/// The driver note of the summary: the installed variant if there is one, else
/// the chosen one, else nothing.
pub open spec fn driver_note_spec(chosen: Option<NvidiaVariant>, installed: Option<NvidiaVariant>) -> Seq<char> {
    match installed {
        Some(v) => " (NVIDIA driver: "@ + nvidia_variant_label_spec(v) + ")"@,
        None => match chosen {
            Some(v) => " (NVIDIA driver: "@ + nvidia_variant_label_spec(v) + ")"@,
            None => Seq::empty(),
        },
    }
}

pub open spec fn gpu_summary_spec(
    vendors: Set<GpuVendor>,
    chosen: Option<NvidiaVariant>,
    installed: Option<NvidiaVariant>,
) -> Option<Seq<char>> {
    if no_vendor(vendors) {
        None
    } else {
        Some("Detected GPU: "@ + seq_join(vendor_names_spec(vendors), ", "@) + driver_note_spec(chosen, installed))
    }
}

/// A one-line description of the detected GPUs, or `None` when none was detected.
pub fn format_gpu_summary(
    vendors: &GpuVendorSet,
    nvidia_variant: Option<NvidiaVariant>,
    installed_variant: Option<NvidiaVariant>,
) -> (r: Option<String>)
    ensures
        opt_view(r) == gpu_summary_spec(vendors@, nvidia_variant, installed_variant),
{
    if vendors.is_empty() {
        return None;
    }
    let mut parts: Vec<String> = Vec::new();
    let ghost pv = parts.deep_view();
    assert(pv =~= Seq::<Seq<char>>::empty());
    if vendors.contains(GpuVendor::Amd) {
        parts.push("AMD".to_string());
    }
    if vendors.contains(GpuVendor::Intel) {
        parts.push("Intel".to_string());
    }
    if vendors.contains(GpuVendor::Nvidia) {
        parts.push("NVIDIA".to_string());
    }
    assert(parts.deep_view() =~= vendor_names_spec(vendors@));
    let mut line = "Detected GPU: ".to_string();
    let joined = join(&parts, ", ");
    line.append(joined.as_str());
    let variant = match installed_variant {
        Some(v) => Some(v),
        None => nvidia_variant,
    };
    if let Some(v) = variant {
        line.append(" (NVIDIA driver: ");
        line.append(nvidia_variant_label(v));
        line.append(")");
    }
    assert(line@ =~= "Detected GPU: "@ + seq_join(vendor_names_spec(vendors@), ", "@) + driver_note_spec(nvidia_variant, installed_variant));
    Some(line)
}

} // verus!
