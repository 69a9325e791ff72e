//! The diagnostic data model: structured error reports, the platform
//! description, detected anomalies, and the bundle that ties them together.
use vstd::prelude::*;

use crate::diag::context::Context;
use crate::diag::proc::{
    mount_views, version_pair_of, DiskStat, KernelInfo, MemInfo, MountEntry, MountEntryView,
    NetDev,
};
use crate::text::{
    chars_equal_str, chars_of, decimal, join, join_strings, push_decimal, push_str,
    starts_with_str, string_views,
};
use crate::output::round_half_even;
use crate::types::now_unix;

verus! {

/// Severity of a report or detected anomaly.
#[derive(Debug, Clone, Copy, PartialEq, Eq, PartialOrd, Ord, Structural)]
pub enum Severity {
    Info,
    Warning,
    Error,
    Fatal,
}

/// A structured crash/error report contributed by any crate in the workspace.
#[derive(Debug, Clone, PartialEq, Eq)]
pub struct DiagReport {
    /// Originating crate or subsystem, e.g. `"hpc-daemon"`.
    pub source: String,
    pub severity: Severity,
    /// A short, stable machine key for the event, e.g. `"grpc_disconnect"`.
    pub kind: String,
    /// Human-readable description.
    pub message: String,
    /// Arbitrary structured context (node id, path, error chain, ...).
    pub context: Context,
    pub captured_at_unix: u64,
}

impl DiagReport {
    /// Build a report with the given severity, an empty context and the
    /// current time.
    pub fn new(source: &str, severity: Severity, kind: &str, message: &str) -> (r: DiagReport)
        ensures
            r.source@ == source@,
            r.severity == severity,
            r.kind@ == kind@,
            r.message@ == message@,
            r.context@ == Map::<Seq<char>, Seq<char>>::empty(),
    {
        DiagReport {
            source: source.to_owned(),
            severity,
            kind: kind.to_owned(),
            message: message.to_owned(),
            context: Context::new(),
            captured_at_unix: now_unix(),
        }
    }

    /// Shorthand for a [`Severity::Warning`] report.
    pub fn warning(source: &str, kind: &str, message: &str) -> (r: DiagReport)
        ensures
            r.source@ == source@,
            r.severity == Severity::Warning,
            r.kind@ == kind@,
            r.message@ == message@,
            r.context@ == Map::<Seq<char>, Seq<char>>::empty(),
    {
        Self::new(source, Severity::Warning, kind, message)
    }

    /// Shorthand for a [`Severity::Error`] report.
    pub fn error(source: &str, kind: &str, message: &str) -> (r: DiagReport)
        ensures
            r.source@ == source@,
            r.severity == Severity::Error,
            r.kind@ == kind@,
            r.message@ == message@,
            r.context@ == Map::<Seq<char>, Seq<char>>::empty(),
    {
        Self::new(source, Severity::Error, kind, message)
    }

    /// Attach a key/value pair to the report's context, builder-style: the
    /// context maps `key` to `value` (replacing any earlier value of `key`),
    /// and every other field is kept.
    pub fn with_context(self, key: &str, value: &str) -> (r: DiagReport)
        ensures
            r.source == self.source,
            r.severity == self.severity,
            r.kind == self.kind,
            r.message == self.message,
            r.captured_at_unix == self.captured_at_unix,
            r.context@ == self.context@.insert(key@, value@),
    {
        let mut r = self;
        r.context.insert(key, value);
        r
    }
}

/// Where the bundle was captured.
#[derive(Debug, Clone, PartialEq, Eq, Default)]
pub struct HostInfo {
    pub hostname: String,
    /// Compile-time target OS.
    pub os: String,
    /// Compile-time target architecture.
    pub arch: String,
}

/// The platform description used for cross-platform bug analysis: kernel
/// identity, the distinct filesystem types in use, and the raw mount table.
#[derive(Debug, Clone, PartialEq, Eq, Default)]
pub struct PlatformInfo {
    pub kernel: KernelInfo,
    /// Distinct filesystem types currently mounted, sorted.
    pub filesystems: Vec<String>,
    pub mounts: Vec<MountEntry>,
}

/// A detected condition that could plausibly explain a bug or behavioural
/// difference between platforms.
#[derive(Debug, Clone, PartialEq, Eq)]
pub struct Anomaly {
    pub severity: Severity,
    /// Machine-readable category, e.g. `"memory_pressure"`.
    pub category: String,
    pub detail: String,
}

/// The mathematical content of an [`Anomaly`].
pub struct AnomalyView {
    pub severity: Severity,
    pub category: Seq<char>,
    pub detail: Seq<char>,
}

impl View for Anomaly {
    type V = AnomalyView;

    open spec fn view(&self) -> AnomalyView {
        AnomalyView { severity: self.severity, category: self.category@, detail: self.detail@ }
    }
}

/// The views of a sequence of anomalies.
pub open spec fn anomaly_views(v: Seq<Anomaly>) -> Seq<AnomalyView> {
    Seq::new(v.len(), |i: int| v[i]@)
}

/// The complete diagnostic bundle: the single document a collection emits.
#[derive(Debug, Clone, PartialEq, Eq)]
pub struct DiagnosticBundle {
    /// Schema version, so downstream tooling can evolve safely.
    pub schema_version: u32,
    pub generated_at_unix: u64,
    pub host: HostInfo,
    pub platform: PlatformInfo,
    pub memory: Option<MemInfo>,
    pub disks: Vec<DiskStat>,
    pub network: Vec<NetDev>,
    pub reports: Vec<DiagReport>,
    pub anomalies: Vec<Anomaly>,
}

impl DiagnosticBundle {
    /// The current bundle schema version.
    pub const SCHEMA_VERSION: u32 = 1;
}

// ---------------------------------------------------------------------------
// Anomaly heuristics
// ---------------------------------------------------------------------------

/// Memory is under pressure when less than a tenth of it is available.
pub open spec fn under_memory_pressure(mem: MemInfo) -> bool {
    mem.mem_total_kb > 0 && mem.mem_available_kb * 10 < mem.mem_total_kb
}

/// The available share of memory in tenths of a percent, rounded to nearest
/// with halves to even (as one-decimal formatting rounds).
pub open spec fn available_tenths(mem: MemInfo) -> nat {
    round_half_even(1000 * mem.mem_available_kb as nat, mem.mem_total_kb as nat)
}

/// A count of tenths rendered with one decimal, e.g. `49` as `4.9`.
pub open spec fn tenths_text(n: nat) -> Seq<char> {
    decimal(n / 10) + "."@ + decimal(n % 10)
}

pub open spec fn pressure_anomaly(mem: MemInfo) -> AnomalyView {
    AnomalyView {
        severity: Severity::Error,
        category: "memory_pressure"@,
        detail: "only "@ + tenths_text(available_tenths(mem))
            + "% of memory available; latency spikes, allocator failures and OOM kills are plausible here"@,
    }
}

pub open spec fn no_swap_anomaly() -> AnomalyView {
    AnomalyView {
        severity: Severity::Info,
        category: "no_swap"@,
        detail: "no swap configured; memory pressure surfaces as hard OOM rather than slowdown"@,
    }
}

/// Anomalies read off the memory figures: pressure, then missing swap.
pub open spec fn memory_anomalies(memory: Option<MemInfo>) -> Seq<AnomalyView> {
    match memory {
        None => Seq::<AnomalyView>::empty(),
        Some(mem) => (if under_memory_pressure(mem) {
            seq![pressure_anomaly(mem)]
        } else {
            Seq::<AnomalyView>::empty()
        }) + (if mem.swap_total_kb == 0 {
            seq![no_swap_anomaly()]
        } else {
            Seq::<AnomalyView>::empty()
        }),
    }
}

/// A kernel older than 5.1 (the io_uring release).
pub open spec fn predates_io_uring(major: u32, minor: u32) -> bool {
    major < 5 || (major == 5 && minor < 1)
}

pub open spec fn old_kernel_anomaly(release: Seq<char>) -> AnomalyView {
    AnomalyView {
        severity: Severity::Warning,
        category: "old_kernel"@,
        detail: "kernel "@ + release
            + " predates io_uring (5.1); async I/O and syscall behaviour may differ from newer nodes"@,
    }
}

/// The old-kernel anomaly, when the release parses and predates 5.1.
pub open spec fn kernel_anomalies(release: Seq<char>) -> Seq<AnomalyView> {
    match version_pair_of(release) {
        Some((major, minor)) => if predates_io_uring(major, minor) {
            seq![old_kernel_anomaly(release)]
        } else {
            Seq::<AnomalyView>::empty()
        },
        None => Seq::<AnomalyView>::empty(),
    }
}

pub open spec fn heterogeneous_anomaly(filesystems: Seq<Seq<char>>) -> AnomalyView {
    AnomalyView {
        severity: Severity::Info,
        category: "heterogeneous_filesystems"@,
        detail: "multiple filesystem types in use ("@ + join(filesystems, ", "@)
            + "); durability and atomicity semantics can differ per mount"@,
    }
}

/// The heterogeneous-filesystems anomaly, when more than one type is in use.
pub open spec fn filesystem_anomalies(filesystems: Seq<Seq<char>>) -> Seq<AnomalyView> {
    if filesystems.len() > 1 {
        seq![heterogeneous_anomaly(filesystems)]
    } else {
        Seq::<AnomalyView>::empty()
    }
}

/// Filesystem types whose contents do not survive a reboot.
pub open spec fn is_ephemeral_fs(fs_type: Seq<char>) -> bool {
    fs_type == "tmpfs"@ || fs_type == "ramfs"@ || fs_type == "overlay"@ || fs_type == "devtmpfs"@
}

/// Whether `s` begins with `p`.
pub open spec fn has_prefix(s: Seq<char>, p: Seq<char>) -> bool {
    p.len() <= s.len() && s.take(p.len() as int) == p
}

pub open spec fn ephemeral_anomaly(m: MountEntryView) -> AnomalyView {
    AnomalyView {
        severity: Severity::Warning,
        category: "ephemeral_state_dir"@,
        detail: m.mount_point + " is "@ + m.fs_type
            + " (ephemeral); state written there is lost on reboot"@,
    }
}

pub open spec fn read_only_root_anomaly() -> AnomalyView {
    AnomalyView {
        severity: Severity::Error,
        category: "root_read_only"@,
        detail: "root filesystem is mounted read-only; writes will fail"@,
    }
}

/// Anomalies of one mount: an ephemeral filesystem under `/var`, then a
/// read-only root.
pub open spec fn mount_anomalies(m: MountEntryView) -> Seq<AnomalyView> {
    (if is_ephemeral_fs(m.fs_type) && has_prefix(m.mount_point, "/var"@) {
        seq![ephemeral_anomaly(m)]
    } else {
        Seq::<AnomalyView>::empty()
    }) + (if m.mount_point == "/"@ && m.options.contains("ro"@) {
        seq![read_only_root_anomaly()]
    } else {
        Seq::<AnomalyView>::empty()
    })
}

/// The anomalies of every mount, in mount order.
pub open spec fn mounts_anomalies(ms: Seq<MountEntryView>) -> Seq<AnomalyView>
    decreases ms.len(),
{
    if ms.len() == 0 {
        Seq::<AnomalyView>::empty()
    } else {
        mounts_anomalies(ms.drop_last()) + mount_anomalies(ms.last())
    }
}

proof fn lemma_mounts_anomalies_contains(ms: Seq<MountEntryView>, i: int, x: AnomalyView)
    requires
        0 <= i < ms.len(),
        mount_anomalies(ms[i]).contains(x),
    ensures
        mounts_anomalies(ms).contains(x),
    decreases ms.len(),
{
    let d = ms.drop_last();
    let a = mounts_anomalies(d);
    let b = mount_anomalies(ms.last());
    if i == ms.len() - 1 {
        let j = choose|j: int| 0 <= j < b.len() && b[j] == x;
        assert((a + b)[a.len() + j] == x);
    } else {
        assert(d[i] == ms[i]);
        lemma_mounts_anomalies_contains(d, i, x);
        let j = choose|j: int| 0 <= j < a.len() && a[j] == x;
        assert((a + b)[j] == x);
    }
}

proof fn lemma_ephemeral_from_mount(ms: Seq<MountEntryView>, x: AnomalyView)
    requires
        mounts_anomalies(ms).contains(x),
        x.category == "ephemeral_state_dir"@,
    ensures
        exists|i: int|
            0 <= i < ms.len() && x == ephemeral_anomaly(#[trigger] ms[i]) && is_ephemeral_fs(ms[i].fs_type)
                && has_prefix(ms[i].mount_point, "/var"@),
    decreases ms.len(),
{
    reveal_strlit("ephemeral_state_dir");
    reveal_strlit("root_read_only");
    let d = ms.drop_last();
    let a = mounts_anomalies(d);
    let b = mount_anomalies(ms.last());
    let j = choose|j: int| 0 <= j < (a + b).len() && (a + b)[j] == x;
    if j < a.len() {
        assert(a[j] == x);
        lemma_ephemeral_from_mount(d, x);
        let i = choose|i: int|
            0 <= i < d.len() && x == ephemeral_anomaly(#[trigger] d[i]) && is_ephemeral_fs(d[i].fs_type)
                && has_prefix(d[i].mount_point, "/var"@);
        assert(ms[i] == d[i]);
    } else {
        assert(b[j - a.len()] == x);
        let m = ms.last();
        assert(ms[ms.len() - 1] == m);
        if is_ephemeral_fs(m.fs_type) && has_prefix(m.mount_point, "/var"@) {
            if j - a.len() == 1 {
                assert(x == read_only_root_anomaly());
                assert(x.category.len() != "ephemeral_state_dir"@.len());
            }
        } else {
            assert(x == read_only_root_anomaly());
            assert(x.category.len() != "ephemeral_state_dir"@.len());
        }
    }
}

/// Every mount of an ephemeral filesystem (tmpfs, ramfs, overlay or
/// devtmpfs) under `/var` is flagged with an `ephemeral_state_dir` warning
/// naming the mount point and the type; and every such warning comes from
/// such a mount.
pub proof fn law_ephemeral_state_dirs(
    memory: Option<MemInfo>,
    release: Seq<char>,
    filesystems: Seq<Seq<char>>,
    mounts: Seq<MountEntryView>,
)
    ensures
        forall|i: int|
            0 <= i < mounts.len() && (mounts[i].fs_type == "tmpfs"@ || mounts[i].fs_type == "ramfs"@
                || mounts[i].fs_type == "overlay"@ || mounts[i].fs_type == "devtmpfs"@) && mounts[i].mount_point.len()
                >= 4 && mounts[i].mount_point.take(4) == "/var"@ ==> anomalies_of(
                memory,
                release,
                filesystems,
                mounts,
            ).contains(
                AnomalyView {
                    severity: Severity::Warning,
                    category: "ephemeral_state_dir"@,
                    detail: mounts[i].mount_point + " is "@ + (#[trigger] mounts[i]).fs_type
                        + " (ephemeral); state written there is lost on reboot"@,
                },
            ),
        forall|x: AnomalyView|
            #![trigger anomalies_of(memory, release, filesystems, mounts).contains(x)]
            anomalies_of(memory, release, filesystems, mounts).contains(x) && x.category == "ephemeral_state_dir"@
                ==> exists|i: int|
                0 <= i < mounts.len() && (mounts[i].fs_type == "tmpfs"@ || mounts[i].fs_type == "ramfs"@
                    || mounts[i].fs_type == "overlay"@ || mounts[i].fs_type == "devtmpfs"@)
                    && mounts[i].mount_point.len() >= 4 && mounts[i].mount_point.take(4) == "/var"@
                    && x.severity == Severity::Warning && x.detail == (#[trigger] mounts[i]).mount_point + " is "@
                    + mounts[i].fs_type + " (ephemeral); state written there is lost on reboot"@,
{
    reveal_strlit("/var");
    let pre = memory_anomalies(memory) + kernel_anomalies(release) + filesystem_anomalies(filesystems);
    let ma = mounts_anomalies(mounts);
    assert(anomalies_of(memory, release, filesystems, mounts) == pre + ma);
    assert forall|i: int|
        0 <= i < mounts.len() && (mounts[i].fs_type == "tmpfs"@ || mounts[i].fs_type == "ramfs"@
            || mounts[i].fs_type == "overlay"@ || mounts[i].fs_type == "devtmpfs"@) && mounts[i].mount_point.len()
            >= 4 && mounts[i].mount_point.take(4) == "/var"@ implies anomalies_of(
            memory,
            release,
            filesystems,
            mounts,
        ).contains(
            AnomalyView {
                severity: Severity::Warning,
                category: "ephemeral_state_dir"@,
                detail: mounts[i].mount_point + " is "@ + (#[trigger] mounts[i]).fs_type
                    + " (ephemeral); state written there is lost on reboot"@,
            },
        ) by {
        let x = ephemeral_anomaly(mounts[i]);
        assert(mount_anomalies(mounts[i])[0] == x);
        lemma_mounts_anomalies_contains(mounts, i, x);
        let j = choose|j: int| 0 <= j < ma.len() && ma[j] == x;
        assert((pre + ma)[pre.len() + j] == x);
    }
    assert forall|x: AnomalyView|
        #![trigger anomalies_of(memory, release, filesystems, mounts).contains(x)]
        anomalies_of(memory, release, filesystems, mounts).contains(x) && x.category == "ephemeral_state_dir"@
            implies exists|i: int|
            0 <= i < mounts.len() && (mounts[i].fs_type == "tmpfs"@ || mounts[i].fs_type == "ramfs"@
                || mounts[i].fs_type == "overlay"@ || mounts[i].fs_type == "devtmpfs"@)
                && mounts[i].mount_point.len() >= 4 && mounts[i].mount_point.take(4) == "/var"@
                && x.severity == Severity::Warning && x.detail == (#[trigger] mounts[i]).mount_point + " is "@
                + mounts[i].fs_type + " (ephemeral); state written there is lost on reboot"@ by {
        let j = choose|j: int| 0 <= j < (pre + ma).len() && (pre + ma)[j] == x;
        if j < pre.len() {
            lemma_front_categories(memory, release, filesystems, x);
            assert(pre[j] == x);
            assert(pre.contains(x));
            assert(false);
        } else {
            assert(ma[j - pre.len()] == x);
            lemma_ephemeral_from_mount(mounts, x);
        }
    }
}

/// The memory, kernel and filesystem anomalies never carry the
/// `ephemeral_state_dir` category.
proof fn lemma_front_categories(
    memory: Option<MemInfo>,
    release: Seq<char>,
    filesystems: Seq<Seq<char>>,
    x: AnomalyView,
)
    requires
        x.category == "ephemeral_state_dir"@,
    ensures
        !(memory_anomalies(memory) + kernel_anomalies(release) + filesystem_anomalies(filesystems)).contains(x),
{
    reveal_strlit("ephemeral_state_dir");
    reveal_strlit("memory_pressure");
    reveal_strlit("no_swap");
    reveal_strlit("old_kernel");
    reveal_strlit("heterogeneous_filesystems");
    let pre = memory_anomalies(memory) + kernel_anomalies(release) + filesystem_anomalies(filesystems);
    if pre.contains(x) {
        let j = choose|j: int| 0 <= j < pre.len() && pre[j] == x;
        let mm = memory_anomalies(memory);
        let kk = kernel_anomalies(release);
        let ff = filesystem_anomalies(filesystems);
        assert(pre == mm + kk + ff);
        if j < mm.len() {
            assert(mm[j] == x);
        } else if j < mm.len() + kk.len() {
            assert(kk[j - mm.len()] == x);
        } else {
            assert(ff[j - mm.len() - kk.len()] == x);
        }
        assert(x.category.len() != "ephemeral_state_dir"@.len());
    }
}

/// Everything [`detect_anomalies`] flags, in order: memory, kernel,
/// filesystems, then each mount.
pub open spec fn anomalies_of(
    memory: Option<MemInfo>,
    release: Seq<char>,
    filesystems: Seq<Seq<char>>,
    mounts: Seq<MountEntryView>,
) -> Seq<AnomalyView> {
    memory_anomalies(memory) + kernel_anomalies(release) + filesystem_anomalies(filesystems)
        + mounts_anomalies(mounts)
}

fn anomaly(severity: Severity, category: &str, detail: String) -> (a: Anomaly)
    ensures
        a.severity == severity,
        a.category@ == category@,
        a.detail@ == detail@,
{
    Anomaly { severity, category: category.to_owned(), detail }
}

fn push_anomaly(out: &mut Vec<Anomaly>, a: Anomaly)
    ensures
        anomaly_views(final(out)@) == anomaly_views(old(out)@).push(a@),
{
    let ghost before = anomaly_views(out@);
    out.push(a);
    proof {
        assert(anomaly_views(out@) =~= before.push(a@));
    }
}

/// Whether `s` spells out the text `t`.
fn str_eq(s: &str, t: &str) -> (r: bool)
    ensures
        r == (s@ == t@),
{
    let sv = chars_of(s);
    chars_equal_str(&sv, t)
}

fn memory_checks(out: &mut Vec<Anomaly>, mem: &MemInfo)
    ensures
        anomaly_views(final(out)@) == anomaly_views(old(out)@) + memory_anomalies(Some(*mem)),
{
    let ghost start = anomaly_views(out@);
    let total = mem.mem_total_kb;
    let avail = mem.mem_available_kb;
    let pressure = total > 0 && (avail as u128) * 10 < total as u128;
    if pressure {
        let n: u128 = 1000 * (avail as u128);
        let q: u128 = n / (total as u128);
        let r: u128 = n % (total as u128);
        let tenths: u128 = if 2 * r > total as u128 || (2 * r == total as u128 && q % 2 == 1) {
            q + 1
        } else {
            q
        };
        proof {
            assert(tenths == available_tenths(*mem));
            assert(q < 100) by (nonlinear_arith)
                requires
                    q == n / (total as u128),
                    n == 1000 * avail,
                    avail * 10 < total,
                    total > 0,
            ;
        }
        let t: u64 = tenths as u64;
        let mut d = String::new();
        push_str(&mut d, "only ");
        push_decimal(&mut d, t / 10);
        push_str(&mut d, ".");
        push_decimal(&mut d, t % 10);
        push_str(
            &mut d,
            "% of memory available; latency spikes, allocator failures and OOM kills are plausible here",
        );
        proof {
            assert(d@ =~= pressure_anomaly(*mem).detail);
        }
        push_anomaly(out, anomaly(Severity::Error, "memory_pressure", d));
    }
    let ghost mid = anomaly_views(out@);
    if mem.swap_total_kb == 0 {
        let mut d = String::new();
        push_str(
            &mut d,
            "no swap configured; memory pressure surfaces as hard OOM rather than slowdown",
        );
        push_anomaly(out, anomaly(Severity::Info, "no_swap", d));
    }
    proof {
        assert(anomaly_views(out@) =~= start + memory_anomalies(Some(*mem)));
    }
}

fn kernel_checks(out: &mut Vec<Anomaly>, kernel: &KernelInfo)
    ensures
        anomaly_views(final(out)@) == anomaly_views(old(out)@) + kernel_anomalies(kernel.release@),
{
    let ghost start = anomaly_views(out@);
    match kernel.version_pair() {
        Some((major, minor)) => {
            if major < 5 || (major == 5 && minor < 1) {
                let mut d = String::new();
                push_str(&mut d, "kernel ");
                push_str(&mut d, kernel.release.as_str());
                push_str(
                    &mut d,
                    " predates io_uring (5.1); async I/O and syscall behaviour may differ from newer nodes",
                );
                proof {
                    assert(d@ =~= old_kernel_anomaly(kernel.release@).detail);
                }
                push_anomaly(out, anomaly(Severity::Warning, "old_kernel", d));
            }
        },
        None => {},
    }
    proof {
        assert(anomaly_views(out@) =~= start + kernel_anomalies(kernel.release@));
    }
}

fn filesystem_checks(out: &mut Vec<Anomaly>, filesystems: &Vec<String>)
    ensures
        anomaly_views(final(out)@) == anomaly_views(old(out)@) + filesystem_anomalies(
            string_views(filesystems@),
        ),
{
    let ghost start = anomaly_views(out@);
    if filesystems.len() > 1 {
        let mut d = String::new();
        push_str(&mut d, "multiple filesystem types in use (");
        let joined = join_strings(filesystems, ", ");
        push_str(&mut d, joined.as_str());
        push_str(&mut d, "); durability and atomicity semantics can differ per mount");
        proof {
            assert(d@ =~= heterogeneous_anomaly(string_views(filesystems@)).detail);
        }
        push_anomaly(out, anomaly(Severity::Info, "heterogeneous_filesystems", d));
    }
    proof {
        assert(anomaly_views(out@) =~= start + filesystem_anomalies(string_views(filesystems@)));
    }
}

fn contains_ro(options: &Vec<String>) -> (r: bool)
    ensures
        r == string_views(options@).contains("ro"@),
{
    let mut i: usize = 0;
    while i < options.len()
        invariant
            i <= options.len(),
            forall|j: int| 0 <= j < i ==> options@[j]@ != "ro"@,
        decreases options.len() - i,
    {
        if str_eq(options[i].as_str(), "ro") {
            proof {
                assert(string_views(options@)[i as int] == "ro"@);
            }
            return true;
        }
        i = i + 1;
    }
    proof {
        if string_views(options@).contains("ro"@) {
            let j = choose|j: int|
                0 <= j < string_views(options@).len() && string_views(options@)[j] == "ro"@;
            assert(options@[j]@ == "ro"@);
        }
    }
    false
}

fn mount_checks(out: &mut Vec<Anomaly>, m: &MountEntry)
    ensures
        anomaly_views(final(out)@) == anomaly_views(old(out)@) + mount_anomalies(m@),
{
    let ghost start = anomaly_views(out@);
    let fs = m.fs_type.as_str();
    let ephemeral = str_eq(fs, "tmpfs") || str_eq(fs, "ramfs") || str_eq(fs, "overlay") || str_eq(
        fs,
        "devtmpfs",
    );
    let mp = chars_of(m.mount_point.as_str());
    if ephemeral && starts_with_str(&mp, "/var") {
        let mut d = String::new();
        push_str(&mut d, m.mount_point.as_str());
        push_str(&mut d, " is ");
        push_str(&mut d, fs);
        push_str(&mut d, " (ephemeral); state written there is lost on reboot");
        proof {
            assert(d@ =~= ephemeral_anomaly(m@).detail);
        }
        push_anomaly(out, anomaly(Severity::Warning, "ephemeral_state_dir", d));
    }
    if str_eq(m.mount_point.as_str(), "/") && contains_ro(&m.options) {
        let mut d = String::new();
        push_str(&mut d, "root filesystem is mounted read-only; writes will fail");
        push_anomaly(out, anomaly(Severity::Error, "root_read_only", d));
    }
    proof {
        assert(anomaly_views(out@) =~= start + mount_anomalies(m@));
    }
}

/// Inspect the collected snapshot and flag platform differences and
/// conditions that could explain bugs: memory pressure (less than a tenth
/// available), no swap, a kernel older than 5.1, more than one filesystem type,
/// an ephemeral filesystem under `/var`, and a read-only root.
pub fn detect_anomalies(memory: Option<&MemInfo>, platform: &PlatformInfo) -> (out: Vec<Anomaly>)
    ensures
        anomaly_views(out@) == anomalies_of(
            match memory {
                Some(m) => Some(*m),
                None => None,
            },
            platform.kernel.release@,
            string_views(platform.filesystems@),
            mount_views(platform.mounts@),
        ),
{
    let mut out: Vec<Anomaly> = Vec::new();
    match memory {
        Some(m) => memory_checks(&mut out, m),
        None => {},
    }
    kernel_checks(&mut out, &platform.kernel);
    filesystem_checks(&mut out, &platform.filesystems);
    let ghost before_mounts = anomaly_views(out@);
    let mut i: usize = 0;
    while i < platform.mounts.len()
        invariant
            i <= platform.mounts.len(),
            anomaly_views(out@) =~= before_mounts + mounts_anomalies(
                mount_views(platform.mounts@).take(i as int),
            ),
        decreases platform.mounts.len() - i,
    {
        mount_checks(&mut out, &platform.mounts[i]);
        proof {
            let t = mount_views(platform.mounts@).take(i + 1);
            assert(t.drop_last() =~= mount_views(platform.mounts@).take(i as int));
            assert(t.last() == platform.mounts@[i as int]@);
        }
        i = i + 1;
    }
    proof {
        assert(mount_views(platform.mounts@).take(platform.mounts@.len() as int) =~= mount_views(
            platform.mounts@,
        ));
        assert(Seq::<AnomalyView>::empty() + memory_anomalies(
            match memory {
                Some(m) => Some(*m),
                None => None,
            },
        ) =~= memory_anomalies(
            match memory {
                Some(m) => Some(*m),
                None => None,
            },
        ));
    }
    out
}

} // verus!
