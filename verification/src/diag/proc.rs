//! Parsers for the Linux `/proc` pseudo-filesystem.
//!
//! Each `parse_*` function is a total function over the file's text: it never
//! fails, and lines it cannot use are skipped. Reading the files themselves is
//! left to the caller, which hands the text in.
use vstd::prelude::*;

use crate::text::{
    chars_equal_str, chars_of, is_first, is_ws, lemma_split_nonempty, lines, parse_u32, parse_u64_or_zero,
    parse_unsigned, split_chars2, split_on, split_on2, split_once, split_once_chars, split_words,
    string_of, string_views, strings_of, trim, trim_chars, trim_end, trim_start, u64_or_zero, views, words,
};

verus! {

/// Selected fields from `/proc/meminfo`, all in kibibytes.
#[derive(Debug, Clone, PartialEq, Eq)]
pub struct MemInfo {
    pub mem_total_kb: u64,
    pub mem_free_kb: u64,
    pub mem_available_kb: u64,
    pub buffers_kb: u64,
    pub cached_kb: u64,
    pub swap_total_kb: u64,
    pub swap_free_kb: u64,
}

/// All-zero figures, the state before any line is read.
pub open spec fn meminfo_zero() -> MemInfo {
    MemInfo {
        mem_total_kb: 0,
        mem_free_kb: 0,
        mem_available_kb: 0,
        buffers_kb: 0,
        cached_kb: 0,
        swap_total_kb: 0,
        swap_free_kb: 0,
    }
}

impl Default for MemInfo {
    fn default() -> (m: MemInfo)
        ensures
            m == meminfo_zero(),
    {
        MemInfo {
            mem_total_kb: 0,
            mem_free_kb: 0,
            mem_available_kb: 0,
            buffers_kb: 0,
            cached_kb: 0,
            swap_total_kb: 0,
            swap_free_kb: 0,
        }
    }
}

/// Per-device counters from `/proc/diskstats`.
#[derive(Debug, Clone, PartialEq, Eq, Default)]
pub struct DiskStat {
    pub device: String,
    pub reads_completed: u64,
    pub sectors_read: u64,
    pub writes_completed: u64,
    pub sectors_written: u64,
}

/// The mathematical content of a [`DiskStat`].
pub struct DiskStatView {
    pub device: Seq<char>,
    pub reads_completed: u64,
    pub sectors_read: u64,
    pub writes_completed: u64,
    pub sectors_written: u64,
}

impl View for DiskStat {
    type V = DiskStatView;

    open spec fn view(&self) -> DiskStatView {
        DiskStatView {
            device: self.device@,
            reads_completed: self.reads_completed,
            sectors_read: self.sectors_read,
            writes_completed: self.writes_completed,
            sectors_written: self.sectors_written,
        }
    }
}

/// Per-interface counters from `/proc/net/dev`.
#[derive(Debug, Clone, PartialEq, Eq, Default)]
pub struct NetDev {
    pub interface: String,
    pub rx_bytes: u64,
    pub rx_errs: u64,
    pub tx_bytes: u64,
    pub tx_errs: u64,
}

/// The mathematical content of a [`NetDev`].
pub struct NetDevView {
    pub interface: Seq<char>,
    pub rx_bytes: u64,
    pub rx_errs: u64,
    pub tx_bytes: u64,
    pub tx_errs: u64,
}

impl View for NetDev {
    type V = NetDevView;

    open spec fn view(&self) -> NetDevView {
        NetDevView {
            interface: self.interface@,
            rx_bytes: self.rx_bytes,
            rx_errs: self.rx_errs,
            tx_bytes: self.tx_bytes,
            tx_errs: self.tx_errs,
        }
    }
}

/// A single row of `/proc/mounts`.
#[derive(Debug, Clone, PartialEq, Eq, Default)]
pub struct MountEntry {
    pub device: String,
    pub mount_point: String,
    pub fs_type: String,
    pub options: Vec<String>,
}

/// The mathematical content of a [`MountEntry`].
pub struct MountEntryView {
    pub device: Seq<char>,
    pub mount_point: Seq<char>,
    pub fs_type: Seq<char>,
    pub options: Seq<Seq<char>>,
}

impl View for MountEntry {
    type V = MountEntryView;

    open spec fn view(&self) -> MountEntryView {
        MountEntryView {
            device: self.device@,
            mount_point: self.mount_point@,
            fs_type: self.fs_type@,
            options: string_views(self.options@),
        }
    }
}

/// Kernel identity, from `/proc/version`.
#[derive(Debug, Clone, PartialEq, Eq, Default)]
pub struct KernelInfo {
    /// The full, unparsed banner line.
    pub raw: String,
    /// The release token (e.g. `6.5.0-15-generic`) when it could be isolated.
    pub release: String,
}

/// `(major, minor)` read from a kernel release: the first two pieces between
/// `.` or `-` separators, each parsed as a `u32`.
pub open spec fn version_pair_of(release: Seq<char>) -> Option<(u32, u32)> {
    let p = split_on2(release, '.', '-');
    match parse_unsigned(p[0], u32::MAX as nat) {
        None => None,
        Some(major) => if p.len() < 2 {
            None
        } else {
            match parse_unsigned(p[1], u32::MAX as nat) {
                None => None,
                Some(minor) => Some((major as u32, minor as u32)),
            }
        },
    }
}

impl KernelInfo {
    /// Best-effort `(major, minor)` parsed from [`Self::release`].
    pub fn version_pair(&self) -> (r: Option<(u32, u32)>)
        ensures
            r == version_pair_of(self.release@),
    {
        let chars = chars_of(self.release.as_str());
        let parts = split_chars2(&chars, '.', '-');
        proof {
            lemma_split_nonempty(chars@, '.', '-');
            assert(parts@[0]@ == views(parts@)[0]);
        }
        let major = match parse_u32(&parts[0]) {
            Some(v) => v,
            None => return None,
        };
        if parts.len() < 2 {
            return None;
        }
        proof {
            assert(parts@[1]@ == views(parts@)[1]);
        }
        let minor = match parse_u32(&parts[1]) {
            Some(v) => v,
            None => return None,
        };
        Some((major, minor))
    }
}

// ---------------------------------------------------------------------------
// /proc/meminfo
// ---------------------------------------------------------------------------

/// The numeric value of a meminfo line's remainder: its first word as a
/// `u64`, or zero.
pub open spec fn meminfo_value(rest: Seq<char>) -> u64 {
    let f = words(rest);
    if f.len() > 0 {
        u64_or_zero(f[0])
    } else {
        0
    }
}

/// The effect of one `/proc/meminfo` line: a `Key: value` line whose trimmed
/// key is one of the seven tracked keys sets that field; other lines change
/// nothing.
pub open spec fn meminfo_line(m: MemInfo, line: Seq<char>) -> MemInfo {
    match split_once(line, ':') {
        None => m,
        Some((key, rest)) => {
            let v = meminfo_value(rest);
            let k = trim(key);
            if k == "MemTotal"@ {
                MemInfo { mem_total_kb: v, ..m }
            } else if k == "MemFree"@ {
                MemInfo { mem_free_kb: v, ..m }
            } else if k == "MemAvailable"@ {
                MemInfo { mem_available_kb: v, ..m }
            } else if k == "Buffers"@ {
                MemInfo { buffers_kb: v, ..m }
            } else if k == "Cached"@ {
                MemInfo { cached_kb: v, ..m }
            } else if k == "SwapTotal"@ {
                MemInfo { swap_total_kb: v, ..m }
            } else if k == "SwapFree"@ {
                MemInfo { swap_free_kb: v, ..m }
            } else {
                m
            }
        },
    }
}

/// A key with no `:` and no whitespace at either end.
pub open spec fn plain_key(k: Seq<char>) -> bool {
    &&& k.len() > 0
    &&& !is_ws(k[0])
    &&& !is_ws(k.last())
    &&& forall|i: int| 0 <= i < k.len() ==> k[i] != ':'
}

proof fn lemma_plain_key_line(k: Seq<char>, rest: Seq<char>)
    requires
        plain_key(k),
    ensures
        split_once(k + seq![':'] + rest, ':') == Some((k, rest)),
        trim(k) == k,
{
    let line = k + seq![':'] + rest;
    let n = k.len() as int;
    assert(line[n] == ':');
    assert forall|j: int| 0 <= j < n implies line[j] != ':' by {
        assert(line[j] == k[j]);
    }
    assert(is_first(line, ':', n));
    let w = choose|w: int| is_first(line, ':', w);
    assert(w == n) by {
        if w < n {
            assert(line[w] != ':');
        } else if w > n {
            assert(line[n] != ':');
        }
    }
    assert(line.take(n) =~= k);
    assert(line.skip(n + 1) =~= rest);
    assert(trim_start(k) == k);
    assert(trim_end(k) == k);
}

/// Each tracked `/proc/meminfo` key sets its own field and no other: a line
/// `Key:rest` sets the field named after `Key` (`MemTotal` to
/// `mem_total_kb`, ..., `SwapFree` to `swap_free_kb`) to the first number
/// of `rest`, leaving every other field as it was; a line whose key is not
/// tracked changes nothing.
pub proof fn law_meminfo_key_sets_its_field(m: MemInfo, key: Seq<char>, rest: Seq<char>)
    requires
        plain_key(key),
    ensures
        ({
            let line = key + seq![':'] + rest;
            let v = meminfo_value(rest);
            let r = meminfo_line(m, line);
            &&& key == "MemTotal"@ ==> r == MemInfo { mem_total_kb: v, ..m }
            &&& key == "MemFree"@ ==> r == MemInfo { mem_free_kb: v, ..m }
            &&& key == "MemAvailable"@ ==> r == MemInfo { mem_available_kb: v, ..m }
            &&& key == "Buffers"@ ==> r == MemInfo { buffers_kb: v, ..m }
            &&& key == "Cached"@ ==> r == MemInfo { cached_kb: v, ..m }
            &&& key == "SwapTotal"@ ==> r == MemInfo { swap_total_kb: v, ..m }
            &&& key == "SwapFree"@ ==> r == MemInfo { swap_free_kb: v, ..m }
            &&& (key != "MemTotal"@ && key != "MemFree"@ && key != "MemAvailable"@ && key != "Buffers"@
                && key != "Cached"@ && key != "SwapTotal"@ && key != "SwapFree"@) ==> r == m
        }),
{
    lemma_plain_key_line(key, rest);
    reveal_strlit("MemTotal");
    reveal_strlit("MemFree");
    reveal_strlit("MemAvailable");
    reveal_strlit("Buffers");
    reveal_strlit("Cached");
    reveal_strlit("SwapTotal");
    reveal_strlit("SwapFree");
}

/// The tracked keys are plain, so the law above applies to each of them.
pub proof fn law_tracked_keys_are_plain()
    ensures
        plain_key("MemTotal"@),
        plain_key("MemFree"@),
        plain_key("MemAvailable"@),
        plain_key("Buffers"@),
        plain_key("Cached"@),
        plain_key("SwapTotal"@),
        plain_key("SwapFree"@),
{
    reveal_strlit("MemTotal");
    reveal_strlit("MemFree");
    reveal_strlit("MemAvailable");
    reveal_strlit("Buffers");
    reveal_strlit("Cached");
    reveal_strlit("SwapTotal");
    reveal_strlit("SwapFree");
}

/// The figures after reading `ls` in order, starting from zero; a later line
/// for a key overrides an earlier one.
pub open spec fn meminfo_of(ls: Seq<Seq<char>>) -> MemInfo
    decreases ls.len(),
{
    if ls.len() == 0 {
        meminfo_zero()
    } else {
        meminfo_line(meminfo_of(ls.drop_last()), ls.last())
    }
}

/// Parse `/proc/meminfo`. Unknown/missing keys default to zero.
pub fn parse_meminfo(text: &str) -> (m: MemInfo)
    ensures
        m == meminfo_of(lines(text@)),
{
    let chars = chars_of(text);
    let ls = split_chars2(&chars, '\n', '\n');
    let mut m = MemInfo::default();
    let mut k: usize = 0;
    while k < ls.len()
        invariant
            k <= ls.len(),
            views(ls@) == lines(text@),
            m == meminfo_of(views(ls@).take(k as int)),
        decreases ls.len() - k,
    {
        proof {
            let t = views(ls@).take(k + 1);
            assert(t.drop_last() =~= views(ls@).take(k as int));
            assert(t.last() == ls@[k as int]@);
        }
        match split_once_chars(&ls[k], ':') {
            None => {},
            Some((key, rest)) => {
                let f = split_words(&rest);
                let v: u64 = if f.len() > 0 {
                    proof {
                        assert(f@[0]@ == views(f@)[0]);
                    }
                    parse_u64_or_zero(&f[0])
                } else {
                    0
                };
                let kt = trim_chars(&key);
                if chars_equal_str(&kt, "MemTotal") {
                    m.mem_total_kb = v;
                } else if chars_equal_str(&kt, "MemFree") {
                    m.mem_free_kb = v;
                } else if chars_equal_str(&kt, "MemAvailable") {
                    m.mem_available_kb = v;
                } else if chars_equal_str(&kt, "Buffers") {
                    m.buffers_kb = v;
                } else if chars_equal_str(&kt, "Cached") {
                    m.cached_kb = v;
                } else if chars_equal_str(&kt, "SwapTotal") {
                    m.swap_total_kb = v;
                } else if chars_equal_str(&kt, "SwapFree") {
                    m.swap_free_kb = v;
                }
            },
        }
        k = k + 1;
    }
    proof {
        assert(views(ls@).take(ls@.len() as int) =~= views(ls@));
    }
    m
}

// ---------------------------------------------------------------------------
// /proc/diskstats
// ---------------------------------------------------------------------------

/// The record of a diskstats line with at least ten fields: the device name
/// is field 2, reads field 3, sectors read field 5, writes field 7 and
/// sectors written field 9 (unparsable counters read as zero).
pub open spec fn disk_row(f: Seq<Seq<char>>) -> DiskStatView {
    DiskStatView {
        device: f[2],
        reads_completed: u64_or_zero(f[3]),
        sectors_read: u64_or_zero(f[5]),
        writes_completed: u64_or_zero(f[7]),
        sectors_written: u64_or_zero(f[9]),
    }
}

/// The records of the lines `ls`: one per line with at least ten fields.
pub open spec fn diskstats_of(ls: Seq<Seq<char>>) -> Seq<DiskStatView>
    decreases ls.len(),
{
    if ls.len() == 0 {
        Seq::<DiskStatView>::empty()
    } else {
        let r = diskstats_of(ls.drop_last());
        let f = words(ls.last());
        if f.len() < 10 {
            r
        } else {
            r.push(disk_row(f))
        }
    }
}

/// The views of a sequence of disk records.
pub open spec fn disk_views(v: Seq<DiskStat>) -> Seq<DiskStatView> {
    Seq::new(v.len(), |i: int| v[i]@)
}

/// Parse `/proc/diskstats`. Malformed lines are skipped.
pub fn parse_diskstats(text: &str) -> (out: Vec<DiskStat>)
    ensures
        disk_views(out@) == diskstats_of(lines(text@)),
{
    let chars = chars_of(text);
    let ls = split_chars2(&chars, '\n', '\n');
    let mut out: Vec<DiskStat> = Vec::new();
    let mut k: usize = 0;
    while k < ls.len()
        invariant
            k <= ls.len(),
            views(ls@) == lines(text@),
            disk_views(out@) =~= diskstats_of(views(ls@).take(k as int)),
        decreases ls.len() - k,
    {
        proof {
            let t = views(ls@).take(k + 1);
            assert(t.drop_last() =~= views(ls@).take(k as int));
            assert(t.last() == ls@[k as int]@);
        }
        let f = split_words(&ls[k]);
        if f.len() >= 10 {
            let ghost fv = views(f@);
            let d = DiskStat {
                device: string_of(f[2].as_slice()),
                reads_completed: parse_u64_or_zero(&f[3]),
                sectors_read: parse_u64_or_zero(&f[5]),
                writes_completed: parse_u64_or_zero(&f[7]),
                sectors_written: parse_u64_or_zero(&f[9]),
            };
            proof {
                assert(fv[2] == f@[2]@ && fv[3] == f@[3]@ && fv[5] == f@[5]@);
                assert(fv[7] == f@[7]@ && fv[9] == f@[9]@);
                assert(d@ == disk_row(fv));
            }
            let ghost before = disk_views(out@);
            out.push(d);
            proof {
                assert(disk_views(out@) =~= before.push(d@));
            }
        }
        k = k + 1;
    }
    proof {
        assert(views(ls@).take(ls@.len() as int) =~= views(ls@));
    }
    out
}

// ---------------------------------------------------------------------------
// /proc/net/dev
// ---------------------------------------------------------------------------

/// The record of an interface row: the trimmed text before the first `:` is
/// the interface, and of the fields after it, 0 is received bytes, 2 receive
/// errors, 8 transmitted bytes and 10 transmit errors.
pub open spec fn net_row(iface: Seq<char>, f: Seq<Seq<char>>) -> NetDevView {
    NetDevView {
        interface: trim(iface),
        rx_bytes: u64_or_zero(f[0]),
        rx_errs: u64_or_zero(f[2]),
        tx_bytes: u64_or_zero(f[8]),
        tx_errs: u64_or_zero(f[10]),
    }
}

/// The records of the lines `ls`: one per line that holds a `:` followed by
/// at least eleven fields. The two header lines hold no `:` and are skipped.
pub open spec fn net_devs_of(ls: Seq<Seq<char>>) -> Seq<NetDevView>
    decreases ls.len(),
{
    if ls.len() == 0 {
        Seq::<NetDevView>::empty()
    } else {
        let r = net_devs_of(ls.drop_last());
        match split_once(ls.last(), ':') {
            None => r,
            Some((iface, rest)) => {
                let f = words(rest);
                if f.len() < 11 {
                    r
                } else {
                    r.push(net_row(iface, f))
                }
            },
        }
    }
}

/// The views of a sequence of interface records.
pub open spec fn net_views(v: Seq<NetDev>) -> Seq<NetDevView> {
    Seq::new(v.len(), |i: int| v[i]@)
}

/// Parse `/proc/net/dev`. The two header lines and malformed rows are skipped.
pub fn parse_net_dev(text: &str) -> (out: Vec<NetDev>)
    ensures
        net_views(out@) == net_devs_of(lines(text@)),
{
    let chars = chars_of(text);
    let ls = split_chars2(&chars, '\n', '\n');
    let mut out: Vec<NetDev> = Vec::new();
    let mut k: usize = 0;
    while k < ls.len()
        invariant
            k <= ls.len(),
            views(ls@) == lines(text@),
            net_views(out@) =~= net_devs_of(views(ls@).take(k as int)),
        decreases ls.len() - k,
    {
        proof {
            let t = views(ls@).take(k + 1);
            assert(t.drop_last() =~= views(ls@).take(k as int));
            assert(t.last() == ls@[k as int]@);
        }
        match split_once_chars(&ls[k], ':') {
            None => {},
            Some((iface, rest)) => {
                let f = split_words(&rest);
                if f.len() >= 11 {
                    let ghost fv = views(f@);
                    let name = trim_chars(&iface);
                    let d = NetDev {
                        interface: string_of(name.as_slice()),
                        rx_bytes: parse_u64_or_zero(&f[0]),
                        rx_errs: parse_u64_or_zero(&f[2]),
                        tx_bytes: parse_u64_or_zero(&f[8]),
                        tx_errs: parse_u64_or_zero(&f[10]),
                    };
                    proof {
                        assert(fv[0] == f@[0]@ && fv[2] == f@[2]@ && fv[8] == f@[8]@);
                        assert(fv[10] == f@[10]@);
                        assert(d@ == net_row(iface@, fv));
                    }
                    let ghost before = net_views(out@);
                    out.push(d);
                    proof {
                        assert(net_views(out@) =~= before.push(d@));
                    }
                }
            },
        }
        k = k + 1;
    }
    proof {
        assert(views(ls@).take(ls@.len() as int) =~= views(ls@));
    }
    out
}

// ---------------------------------------------------------------------------
// /proc/mounts
// ---------------------------------------------------------------------------

/// The record of a mounts line with at least four fields: device, mount
/// point, filesystem type, and the comma-separated options.
pub open spec fn mount_row(f: Seq<Seq<char>>) -> MountEntryView {
    MountEntryView { device: f[0], mount_point: f[1], fs_type: f[2], options: split_on(f[3], ',') }
}

/// The records of the lines `ls`: one per line with at least four fields.
pub open spec fn mounts_of(ls: Seq<Seq<char>>) -> Seq<MountEntryView>
    decreases ls.len(),
{
    if ls.len() == 0 {
        Seq::<MountEntryView>::empty()
    } else {
        let r = mounts_of(ls.drop_last());
        let f = words(ls.last());
        if f.len() < 4 {
            r
        } else {
            r.push(mount_row(f))
        }
    }
}

/// The views of a sequence of mount records.
pub open spec fn mount_views(v: Seq<MountEntry>) -> Seq<MountEntryView> {
    Seq::new(v.len(), |i: int| v[i]@)
}

/// Parse `/proc/mounts` (same columns as `/etc/fstab`, space-separated).
pub fn parse_mounts(text: &str) -> (out: Vec<MountEntry>)
    ensures
        mount_views(out@) == mounts_of(lines(text@)),
{
    let chars = chars_of(text);
    let ls = split_chars2(&chars, '\n', '\n');
    let mut out: Vec<MountEntry> = Vec::new();
    let mut k: usize = 0;
    while k < ls.len()
        invariant
            k <= ls.len(),
            views(ls@) == lines(text@),
            mount_views(out@) =~= mounts_of(views(ls@).take(k as int)),
        decreases ls.len() - k,
    {
        proof {
            let t = views(ls@).take(k + 1);
            assert(t.drop_last() =~= views(ls@).take(k as int));
            assert(t.last() == ls@[k as int]@);
        }
        let f = split_words(&ls[k]);
        if f.len() >= 4 {
            let ghost fv = views(f@);
            let opts = split_chars2(&f[3], ',', ',');
            let d = MountEntry {
                device: string_of(f[0].as_slice()),
                mount_point: string_of(f[1].as_slice()),
                fs_type: string_of(f[2].as_slice()),
                options: strings_of(&opts),
            };
            proof {
                assert(fv[0] == f@[0]@ && fv[1] == f@[1]@ && fv[2] == f@[2]@);
                assert(fv[3] == f@[3]@);
                assert(d@ == mount_row(fv));
            }
            let ghost before = mount_views(out@);
            out.push(d);
            proof {
                assert(mount_views(out@) =~= before.push(d@));
            }
        }
        k = k + 1;
    }
    proof {
        assert(views(ls@).take(ls@.len() as int) =~= views(ls@));
    }
    out
}

// ---------------------------------------------------------------------------
// /proc/version
// ---------------------------------------------------------------------------

/// The release token of a version banner: its third whitespace-separated
/// word, or empty when there is none.
pub open spec fn release_of(raw: Seq<char>) -> Seq<char> {
    let w = words(raw);
    if w.len() > 2 {
        w[2]
    } else {
        Seq::<char>::empty()
    }
}

/// Parse the `/proc/version` banner into a [`KernelInfo`].
pub fn parse_version(text: &str) -> (k: KernelInfo)
    ensures
        k.raw@ == trim(text@),
        k.release@ == release_of(trim(text@)),
{
    let chars = chars_of(text);
    let raw = trim_chars(&chars);
    let w = split_words(&raw);
    let release = if w.len() > 2 {
        proof {
            assert(w@[2]@ == views(w@)[2]);
        }
        string_of(w[2].as_slice())
    } else {
        String::new()
    };
    KernelInfo { raw: string_of(raw.as_slice()), release }
}

} // verus!
