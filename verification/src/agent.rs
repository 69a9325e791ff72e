//! The per-node agent's decisions: command validation and argv construction,
//! dry-run gating, outcome reporting, node identity, and the `/proc` counter
//! readings behind its throughput figures.
//!
//! Filesystem operations are destructive and need root, so the executor is
//! conservative: with `allow_exec` false every command is validated and the
//! exact argv that would run is returned as a dry-run outcome; with it true
//! the argv is handed back for the caller to spawn. `format` additionally
//! requires `force`.
use vstd::prelude::*;

use crate::config::AgentConfig;

use crate::text::{
    chars_of, decimal, join, join_strings, lines, parse_u64, push_decimal, push_str,
    split_chars2, split_once, split_once_chars, split_words, starts_with_str, string_of,
    string_views, trim, trim_chars, u64_or_zero, views, words, parse_unsigned, chars_equal_str,
    is_blank_str, parse_u64_or_zero,
};
use crate::types::{now_unix, CommandOutcome, DeployAction, DeploySpec, FsAction, FsSpec};

verus! {

/// Decimal rendering of a signed integer (`Display` for `i32`).
pub open spec fn signed_decimal(n: int) -> Seq<char> {
    if n < 0 {
        "-"@ + decimal((-n) as nat)
    } else {
        decimal(n as nat)
    }
}

fn push_signed_decimal(s: &mut String, n: i32)
    ensures
        final(s)@ == old(s)@ + signed_decimal(n as int),
{
    if n < 0 {
        push_str(s, "-");
        let m: u64 = (-(n as i64)) as u64;
        push_decimal(s, m);
        proof {
            assert(final(s)@ =~= old(s)@ + signed_decimal(n as int));
        }
    } else {
        push_decimal(s, n as u64);
        proof {
            assert(final(s)@ =~= old(s)@ + signed_decimal(n as int));
        }
    }
}

/// Carries out commands for one node.
#[derive(Debug, Clone)]
pub struct Executor {
    node_id: String,
    allow_exec: bool,
}

/// The outcome fields other than the completion time.
pub open spec fn outcome_is(
    o: CommandOutcome,
    id: Seq<char>,
    node_id: Seq<char>,
    success: bool,
    exit_code: i32,
    message: Seq<char>,
) -> bool {
    &&& o.command_id@ == id
    &&& o.node_id@ == node_id
    &&& o.success == success
    &&& o.exit_code == exit_code
    &&& o.message@ == message
    &&& o.stdout@.len() == 0
    &&& o.stderr@.len() == 0
}

/// The comma-joined mount options.
pub open spec fn options_text(spec: FsSpec) -> Seq<char> {
    join(string_views(spec.mount_options@), ","@)
}

/// The argv a filesystem command runs, or why it is rejected:
/// * mount: `mount [-t TYPE] [-o OPTS] DEVICE MOUNT_POINT` (device and mount
///   point required);
/// * unmount: `umount MOUNT_POINT` (mount point required);
/// * remount: `mount -o remount[,OPTS] MOUNT_POINT` (mount point required);
/// * check: `fsck -n DEVICE`, a check that never modifies (device required);
/// * format: `mkfs.TYPE DEVICE`, only with `force`, device and type required.
pub open spec fn argv_of(spec: FsSpec) -> Result<Seq<Seq<char>>, Seq<char>> {
    let opts = options_text(spec);
    let dev = spec.device@;
    let mp = spec.mount_point@;
    let fs = spec.fs_type@;
    match spec.action {
        FsAction::Mount => if dev.len() == 0 || mp.len() == 0 {
            Err("mount requires device and mount_point"@)
        } else {
            Ok(
                seq!["mount"@] + (if fs.len() > 0 {
                    seq!["-t"@, fs]
                } else {
                    Seq::<Seq<char>>::empty()
                }) + (if opts.len() > 0 {
                    seq!["-o"@, opts]
                } else {
                    Seq::<Seq<char>>::empty()
                }) + seq![dev, mp],
            )
        },
        FsAction::Unmount => if mp.len() == 0 {
            Err("unmount requires mount_point"@)
        } else {
            Ok(seq!["umount"@, mp])
        },
        FsAction::Remount => if mp.len() == 0 {
            Err("remount requires mount_point"@)
        } else {
            Ok(
                seq![
                    "mount"@,
                    "-o"@,
                    if opts.len() == 0 {
                        "remount"@
                    } else {
                        "remount,"@ + opts
                    },
                    mp,
                ],
            )
        },
        FsAction::Check => if dev.len() == 0 {
            Err("check requires device"@)
        } else {
            Ok(seq!["fsck"@, "-n"@, dev])
        },
        FsAction::Format => if !spec.force {
            Err("format is destructive and requires force=true"@)
        } else if dev.len() == 0 || fs.len() == 0 {
            Err("format requires device and fs_type"@)
        } else {
            Ok(seq!["mkfs."@ + fs, dev])
        },
    }
}

/// `Debug` of a deploy action.
pub open spec fn deploy_action_name(a: DeployAction) -> Seq<char> {
    match a {
        DeployAction::Install => "Install"@,
        DeployAction::Upgrade => "Upgrade"@,
        DeployAction::Rollback => "Rollback"@,
        DeployAction::Remove => "Remove"@,
    }
}

/// The acknowledgement of a (simulated) deploy:
/// `ACTION COMPONENT vVERSION -> TARGET (simulated)`, with `latest` for an
/// empty version and `<default>` for an empty target path.
pub open spec fn deploy_message(spec: DeploySpec) -> Seq<char> {
    deploy_action_name(spec.action) + " "@ + spec.component@ + " v"@ + (if spec.version@.len()
        == 0 {
        "latest"@
    } else {
        spec.version@
    }) + " -> "@ + (if spec.target_path@.len() == 0 {
        "<default>"@
    } else {
        spec.target_path@
    }) + " (simulated)"@
}

/// What to do with a filesystem command.
#[derive(Debug)]
pub enum FsPlan {
    /// The command is settled without running anything: rejected, or a
    /// dry-run.
    Done(CommandOutcome),
    /// Spawn this argv and report with [`Executor::finish_fs`].
    Execute(Vec<String>),
}

/// What spawning a command produced, as the caller observed it.
#[derive(Debug, Clone)]
pub struct ProcessOutput {
    /// Whether the process exited successfully.
    pub success: bool,
    /// The exit code, when the process exited with one.
    pub code: Option<i32>,
    pub stdout: String,
    pub stderr: String,
}

impl Executor {
    /// Create an executor for `node_id`. `allow_exec` gates real side effects.
    pub fn new(node_id: &str, allow_exec: bool) -> (e: Executor)
        ensures
            e.node_id()@ == node_id@,
            e.allow_exec() == allow_exec,
    {
        Executor { node_id: node_id.to_owned(), allow_exec }
    }

    pub closed spec fn node_id(&self) -> String {
        self.node_id
    }

    pub closed spec fn allow_exec(&self) -> bool {
        self.allow_exec
    }

    /// The outcome of command `id` on this node, completed now.
    fn outcome(&self, id: &str, success: bool, exit_code: i32, message: String) -> (o:
        CommandOutcome)
        ensures
            outcome_is(o, id@, self.node_id()@, success, exit_code, message@),
    {
        CommandOutcome {
            command_id: id.to_owned(),
            node_id: self.node_id.clone(),
            success,
            exit_code,
            message,
            stdout: String::new(),
            stderr: String::new(),
            completed_at_unix: now_unix(),
        }
    }

    /// Execute a deploy command. Deploys are always simulated (there is no
    /// universal package manager to shell out to); the intent is acknowledged
    /// with a successful outcome so the control plane's audit trail is
    /// complete.
    pub fn run_deploy(&self, spec: &DeploySpec) -> (o: CommandOutcome)
        ensures
            outcome_is(o, spec.deployment_id@, self.node_id()@, true, 0, deploy_message(*spec)),
    {
        let mut m = String::new();
        match spec.action {
            DeployAction::Install => push_str(&mut m, "Install"),
            DeployAction::Upgrade => push_str(&mut m, "Upgrade"),
            DeployAction::Rollback => push_str(&mut m, "Rollback"),
            DeployAction::Remove => push_str(&mut m, "Remove"),
        }
        push_str(&mut m, " ");
        push_str(&mut m, spec.component.as_str());
        push_str(&mut m, " v");
        if spec.version.as_str().is_empty() {
            push_str(&mut m, "latest");
        } else {
            push_str(&mut m, spec.version.as_str());
        }
        push_str(&mut m, " -> ");
        if spec.target_path.as_str().is_empty() {
            push_str(&mut m, "<default>");
        } else {
            push_str(&mut m, spec.target_path.as_str());
        }
        push_str(&mut m, " (simulated)");
        proof {
            assert(m@ =~= deploy_message(*spec));
        }
        self.outcome(spec.deployment_id.as_str(), true, 0, m)
    }

    /// Turn an [`FsSpec`] into a concrete argv, validating required fields.
    pub fn build_argv(&self, spec: &FsSpec) -> (r: Result<Vec<String>, String>)
        ensures
            match (r, argv_of(*spec)) {
                (Ok(v), Ok(a)) => string_views(v@) == a,
                (Err(e), Err(m)) => e@ == m,
                _ => false,
            },
    {
        let opts = join_strings(&spec.mount_options, ",");
        let dev = spec.device.as_str();
        let mp = spec.mount_point.as_str();
        let fs = spec.fs_type.as_str();
        match spec.action {
            FsAction::Mount => {
                if dev.is_empty() || mp.is_empty() {
                    return Err("mount requires device and mount_point".to_owned());
                }
                let mut argv: Vec<String> = Vec::new();
                argv.push("mount".to_owned());
                if !fs.is_empty() {
                    argv.push("-t".to_owned());
                    argv.push(fs.to_owned());
                }
                let opts_empty = opts.as_str().is_empty();
                if !opts_empty {
                    argv.push("-o".to_owned());
                    argv.push(opts);
                }
                argv.push(dev.to_owned());
                argv.push(mp.to_owned());
                proof {
                    assert(string_views(argv@) =~= argv_of(*spec)->Ok_0);
                }
                Ok(argv)
            },
            FsAction::Unmount => {
                if mp.is_empty() {
                    return Err("unmount requires mount_point".to_owned());
                }
                let mut argv: Vec<String> = Vec::new();
                argv.push("umount".to_owned());
                argv.push(mp.to_owned());
                proof {
                    assert(string_views(argv@) =~= argv_of(*spec)->Ok_0);
                }
                Ok(argv)
            },
            FsAction::Remount => {
                if mp.is_empty() {
                    return Err("remount requires mount_point".to_owned());
                }
                let mut remount = String::new();
                if opts.as_str().is_empty() {
                    push_str(&mut remount, "remount");
                } else {
                    push_str(&mut remount, "remount,");
                    push_str(&mut remount, opts.as_str());
                }
                let mut argv: Vec<String> = Vec::new();
                argv.push("mount".to_owned());
                argv.push("-o".to_owned());
                argv.push(remount);
                argv.push(mp.to_owned());
                proof {
                    assert(string_views(argv@) =~= argv_of(*spec)->Ok_0);
                }
                Ok(argv)
            },
            FsAction::Check => {
                if dev.is_empty() {
                    return Err("check requires device".to_owned());
                }
                let mut argv: Vec<String> = Vec::new();
                argv.push("fsck".to_owned());
                argv.push("-n".to_owned());
                argv.push(dev.to_owned());
                proof {
                    assert(string_views(argv@) =~= argv_of(*spec)->Ok_0);
                }
                Ok(argv)
            },
            FsAction::Format => {
                if !spec.force {
                    return Err("format is destructive and requires force=true".to_owned());
                }
                if dev.is_empty() || fs.is_empty() {
                    return Err("format requires device and fs_type".to_owned());
                }
                let mut tool = String::new();
                push_str(&mut tool, "mkfs.");
                push_str(&mut tool, fs);
                let mut argv: Vec<String> = Vec::new();
                argv.push(tool);
                argv.push(dev.to_owned());
                proof {
                    assert(string_views(argv@) =~= argv_of(*spec)->Ok_0);
                }
                Ok(argv)
            },
        }
    }

    /// Decide what to do with a filesystem command: an invalid command is
    /// settled as a failure (exit code -1, the validation message); a valid one
    /// is settled as a successful dry-run naming the exact argv when execution
    /// is not allowed, and is otherwise handed back to be spawned.
    pub fn plan_fs(&self, spec: &FsSpec) -> (p: FsPlan)
        ensures
            match argv_of(*spec) {
                Err(m) => p matches FsPlan::Done(o) && outcome_is(
                    o,
                    spec.command_id@,
                    self.node_id()@,
                    false,
                    -1i32,
                    m,
                ),
                Ok(a) => if self.allow_exec() {
                    p matches FsPlan::Execute(v) && string_views(v@) == a
                } else {
                    p matches FsPlan::Done(o) && outcome_is(
                        o,
                        spec.command_id@,
                        self.node_id()@,
                        true,
                        0,
                        "dry-run: would execute `"@ + join(a, " "@) + "`"@,
                    )
                },
            },
    {
        let argv = match self.build_argv(spec) {
            Ok(argv) => argv,
            Err(message) => {
                return FsPlan::Done(self.outcome(spec.command_id.as_str(), false, -1, message));
            },
        };
        if !self.allow_exec {
            let mut m = String::new();
            push_str(&mut m, "dry-run: would execute `");
            let joined = join_strings(&argv, " ");
            push_str(&mut m, joined.as_str());
            push_str(&mut m, "`");
            return FsPlan::Done(self.outcome(spec.command_id.as_str(), true, 0, m));
        }
        FsPlan::Execute(argv)
    }

    /// The outcome of a spawned filesystem command: on a spawn failure, a
    /// failure with exit code -1 naming the argv and the error; otherwise the
    /// process's success, its exit code (-1 when it had none), and its output.
    pub fn finish_fs(
        &self,
        spec: &FsSpec,
        argv: &Vec<String>,
        result: Result<ProcessOutput, String>,
    ) -> (o: CommandOutcome)
        ensures
            o.command_id@ == spec.command_id@,
            o.node_id@ == self.node_id()@,
            match result {
                Ok(out) => {
                    let code: i32 = match out.code {
                        Some(c) => c,
                        None => -1i32,
                    };
                    &&& o.success == out.success
                    &&& o.exit_code == code
                    &&& o.message@ == "`"@ + join(string_views(argv@), " "@) + "` exited with "@
                        + signed_decimal(code as int)
                    &&& o.stdout == out.stdout
                    &&& o.stderr == out.stderr
                },
                Err(e) => outcome_is(
                    o,
                    spec.command_id@,
                    self.node_id()@,
                    false,
                    -1i32,
                    "failed to spawn `"@ + join(string_views(argv@), " "@) + "`: "@ + e@,
                ),
            },
    {
        let joined = join_strings(argv, " ");
        match result {
            Ok(out) => {
                let code: i32 = match out.code {
                    Some(c) => c,
                    None => -1,
                };
                let mut m = String::new();
                push_str(&mut m, "`");
                push_str(&mut m, joined.as_str());
                push_str(&mut m, "` exited with ");
                push_signed_decimal(&mut m, code);
                let mut o = self.outcome(spec.command_id.as_str(), out.success, code, m);
                o.stdout = out.stdout;
                o.stderr = out.stderr;
                o
            },
            Err(e) => {
                let mut m = String::new();
                push_str(&mut m, "failed to spawn `");
                push_str(&mut m, joined.as_str());
                push_str(&mut m, "`: ");
                push_str(&mut m, e.as_str());
                self.outcome(spec.command_id.as_str(), false, -1, m)
            },
        }
    }
}


// ---------------------------------------------------------------------------
// Node identity
// ---------------------------------------------------------------------------

/// The machine's host name (`sysinfo::System::host_name`), when the platform
/// reports one. It depends on the machine, so nothing is promised of it.
#[verifier::external_body]
fn host_name() -> Option<String> {
    sysinfo::System::host_name().ok()
}

/// The node id: the configured id unless it is blank, else the host name,
/// else `unknown-node`, so registration always has an id.
pub fn choose_node_id(configured: &str, host: Option<String>) -> (id: String)
    ensures
        trim(configured@).len() > 0 ==> id@ == configured@,
        trim(configured@).len() == 0 ==> match host {
            Some(h) => id == h,
            None => id@ == "unknown-node"@,
        },
{
    if !is_blank_str(configured) {
        return configured.to_owned();
    }
    match host {
        Some(h) => h,
        None => "unknown-node".to_owned(),
    }
}

/// Resolve the node id: explicit configuration wins, else the machine's host
/// name, else a stable fallback.
pub fn resolve_node_id(cfg: &AgentConfig) -> (id: String)
    ensures
        trim(cfg.node_id@).len() > 0 ==> id@ == cfg.node_id@,
{
    choose_node_id(cfg.node_id.as_str(), host_name())
}

// ---------------------------------------------------------------------------
// /proc counters behind the throughput figures
// ---------------------------------------------------------------------------

/// Bytes per disk sector in `/proc/diskstats`.
pub const SECTOR_BYTES: u64 = 512;

/// Cumulative read and written bytes of one block device.
#[derive(Debug, Clone, PartialEq, Eq)]
pub struct DeviceIo {
    pub device: String,
    pub read_bytes: u64,
    pub write_bytes: u64,
}

/// The mathematical content of a [`DeviceIo`].
pub struct DeviceIoView {
    pub device: Seq<char>,
    pub read_bytes: u64,
    pub write_bytes: u64,
}

impl View for DeviceIo {
    type V = DeviceIoView;

    open spec fn view(&self) -> DeviceIoView {
        DeviceIoView {
            device: self.device@,
            read_bytes: self.read_bytes,
            write_bytes: self.write_bytes,
        }
    }
}

pub open spec fn device_io_views(v: Seq<DeviceIo>) -> Seq<DeviceIoView> {
    Seq::new(v.len(), |i: int| v[i]@)
}

/// Whether `s` begins with `p`.
pub open spec fn begins_with(s: Seq<char>, p: Seq<char>) -> bool {
    p.len() <= s.len() && s.take(p.len() as int) == p
}

/// The device readings of the diskstats lines `ls`: one per line with at
/// least ten fields whose device (field 2) is not a loop or ram device and
/// whose sectors read (field 5) and written (field 9) both parse; sector counts
/// are scaled to bytes, wrapping at 2^64.
pub open spec fn device_io_of(ls: Seq<Seq<char>>) -> Seq<DeviceIoView>
    decreases ls.len(),
{
    if ls.len() == 0 {
        Seq::<DeviceIoView>::empty()
    } else {
        let r = device_io_of(ls.drop_last());
        let f = words(ls.last());
        if f.len() < 10 || begins_with(f[2], "loop"@) || begins_with(f[2], "ram"@) {
            r
        } else {
            match (parse_unsigned(f[5], u64::MAX as nat), parse_unsigned(f[9], u64::MAX as nat)) {
                (Some(rd), Some(wr)) => r.push(
                    DeviceIoView {
                        device: f[2],
                        read_bytes: vstd::wrapping::u64_specs::wrapping_mul(rd as u64, 512),
                        write_bytes: vstd::wrapping::u64_specs::wrapping_mul(wr as u64, 512),
                    },
                ),
                _ => r,
            }
        }
    }
}

/// A diskstats line with at least ten fields whose sector counts (fields 5
/// and 9) parse is dropped exactly when its device name (field 2) begins
/// with `loop` or `ram`; any other device is kept, with its sector counts
/// scaled by 512 bytes (wrapping at 2^64).
pub proof fn law_disk_rows_kept_unless_loop_or_ram(ls: Seq<Seq<char>>, line: Seq<char>)
    requires
        words(line).len() >= 10,
        parse_unsigned(words(line)[5], u64::MAX as nat) is Some,
        parse_unsigned(words(line)[9], u64::MAX as nat) is Some,
    ensures
        ({
            let f = words(line);
            let skipped = (f[2].len() >= 4 && f[2].take(4) == "loop"@) || (f[2].len() >= 3 && f[2].take(3)
                == "ram"@);
            let rd = parse_unsigned(f[5], u64::MAX as nat)->Some_0;
            let wr = parse_unsigned(f[9], u64::MAX as nat)->Some_0;
            let out = device_io_of(ls.push(line));
            &&& skipped ==> out == device_io_of(ls)
            &&& !skipped ==> out.len() == device_io_of(ls).len() + 1 && out.drop_last() == device_io_of(ls)
                && out.last().device == f[2] && out.last().read_bytes == (rd * 512) % 0x1_0000_0000_0000_0000
                && out.last().write_bytes == (wr * 512) % 0x1_0000_0000_0000_0000
        }),
{
    reveal_strlit("loop");
    reveal_strlit("ram");
    assert(ls.push(line).drop_last() =~= ls);
    assert(ls.push(line).last() == line);
}

/// A valid mount command keeps every part of the request: it is `mount`,
/// then `-t TYPE` when a type is given, then `-o OPTIONS` whenever the
/// comma-joined options are not empty (whatever the type), then the device
/// and the mount point.
pub proof fn law_mount_argv_keeps_options(spec: FsSpec)
    requires
        spec.action == FsAction::Mount,
        spec.device@.len() > 0,
        spec.mount_point@.len() > 0,
    ensures
        argv_of(spec) is Ok,
        ({
            let a = argv_of(spec)->Ok_0;
            let opts = join(string_views(spec.mount_options@), ","@);
            let o: int = if spec.fs_type@.len() > 0 { 3 } else { 1 };
            &&& a.len() == o + (if opts.len() > 0 { 2int } else { 0int }) + 2
            &&& a[0] == "mount"@
            &&& spec.fs_type@.len() > 0 ==> a[1] == "-t"@ && a[2] == spec.fs_type@
            &&& opts.len() > 0 ==> a[o] == "-o"@ && a[o + 1] == opts
            &&& a[a.len() - 2] == spec.device@
            &&& a[a.len() - 1] == spec.mount_point@
        }),
{
}

/// Cumulative read/write bytes per block device from a `/proc/diskstats`
/// text, in line order (a later line for the same device supersedes an
/// earlier one when collected into a map).
pub fn disk_io_counters(text: &str) -> (out: Vec<DeviceIo>)
    ensures
        device_io_views(out@) == device_io_of(lines(text@)),
{
    let chars = chars_of(text);
    let ls = split_chars2(&chars, '\n', '\n');
    let mut out: Vec<DeviceIo> = Vec::new();
    let mut k: usize = 0;
    while k < ls.len()
        invariant
            k <= ls.len(),
            views(ls@) == lines(text@),
            device_io_views(out@) =~= device_io_of(views(ls@).take(k as int)),
        decreases ls.len() - k,
    {
        proof {
            let t = views(ls@).take(k + 1);
            assert(t.drop_last() =~= views(ls@).take(k as int));
            assert(t.last() == ls@[k as int]@);
        }
        let f = split_words(&ls[k]);
        if f.len() >= 10 {
            let ghost fv = views(f@);
            proof {
                assert(fv[2] == f@[2]@ && fv[5] == f@[5]@ && fv[9] == f@[9]@);
            }
            if !starts_with_str(&f[2], "loop") && !starts_with_str(&f[2], "ram") {
                match (parse_u64(&f[5]), parse_u64(&f[9])) {
                    (Some(rd), Some(wr)) => {
                        let d = DeviceIo {
                            device: string_of(f[2].as_slice()),
                            read_bytes: rd.wrapping_mul(SECTOR_BYTES),
                            write_bytes: wr.wrapping_mul(SECTOR_BYTES),
                        };
                        let ghost before = device_io_views(out@);
                        out.push(d);
                        proof {
                            assert(device_io_views(out@) =~= before.push(d@));
                        }
                    },
                    _ => {},
                }
            }
        }
        k = k + 1;
    }
    proof {
        assert(views(ls@).take(ls@.len() as int) =~= views(ls@));
    }
    out
}

/// Cumulative network counters summed over interfaces.
#[derive(Debug, Clone, Copy, PartialEq, Eq, Default)]
pub struct NetTotals {
    pub rx_bytes: u64,
    pub tx_bytes: u64,
    pub rx_errors: u64,
    pub tx_errors: u64,
}

/// The effect of one `/proc/net/dev` line on the running totals: a row of a
/// named interface other than `lo`, with at least eleven fields, adds its
/// received bytes (field 0), receive errors (2), transmitted bytes (8) and
/// transmit errors (10), each wrapping at 2^64 (an unparsable field adds
/// zero).
pub open spec fn net_totals_line(t: NetTotals, line: Seq<char>) -> NetTotals {
    match split_once(line, ':') {
        None => t,
        Some((iface, rest)) => {
            let name = trim(iface);
            let c = words(rest);
            if name == "lo"@ || name.len() == 0 || c.len() < 11 {
                t
            } else {
                NetTotals {
                    rx_bytes: vstd::wrapping::u64_specs::wrapping_add(t.rx_bytes, u64_or_zero(c[0])),
                    tx_bytes: vstd::wrapping::u64_specs::wrapping_add(t.tx_bytes, u64_or_zero(c[8])),
                    rx_errors: vstd::wrapping::u64_specs::wrapping_add(
                        t.rx_errors,
                        u64_or_zero(c[2]),
                    ),
                    tx_errors: vstd::wrapping::u64_specs::wrapping_add(
                        t.tx_errors,
                        u64_or_zero(c[10]),
                    ),
                }
            }
        },
    }
}

/// The totals after the lines `ls`, starting from zero.
pub open spec fn net_totals_of(ls: Seq<Seq<char>>) -> NetTotals
    decreases ls.len(),
{
    if ls.len() == 0 {
        NetTotals { rx_bytes: 0, tx_bytes: 0, rx_errors: 0, tx_errors: 0 }
    } else {
        net_totals_line(net_totals_of(ls.drop_last()), ls.last())
    }
}

/// Sum cumulative rx/tx bytes and errors across non-loopback interfaces of a
/// `/proc/net/dev` text.
pub fn net_totals(text: &str) -> (t: NetTotals)
    ensures
        t == net_totals_of(lines(text@)),
{
    let chars = chars_of(text);
    let ls = split_chars2(&chars, '\n', '\n');
    let mut t = NetTotals { rx_bytes: 0, tx_bytes: 0, rx_errors: 0, tx_errors: 0 };
    let mut k: usize = 0;
    while k < ls.len()
        invariant
            k <= ls.len(),
            views(ls@) == lines(text@),
            t == net_totals_of(views(ls@).take(k as int)),
        decreases ls.len() - k,
    {
        proof {
            let tt = views(ls@).take(k + 1);
            assert(tt.drop_last() =~= views(ls@).take(k as int));
            assert(tt.last() == ls@[k as int]@);
        }
        match split_once_chars(&ls[k], ':') {
            None => {},
            Some((iface, rest)) => {
                let name = trim_chars(&iface);
                let c = split_words(&rest);
                if !chars_equal_str(&name, "lo") && name.len() > 0 && c.len() >= 11 {
                    proof {
                        let cv = views(c@);
                        assert(cv[0] == c@[0]@ && cv[2] == c@[2]@ && cv[8] == c@[8]@);
                        assert(cv[10] == c@[10]@);
                    }
                    t = NetTotals {
                        rx_bytes: t.rx_bytes.wrapping_add(parse_u64_or_zero(&c[0])),
                        tx_bytes: t.tx_bytes.wrapping_add(parse_u64_or_zero(&c[8])),
                        rx_errors: t.rx_errors.wrapping_add(parse_u64_or_zero(&c[2])),
                        tx_errors: t.tx_errors.wrapping_add(parse_u64_or_zero(&c[10])),
                    };
                }
            },
        }
        k = k + 1;
    }
    proof {
        assert(views(ls@).take(ls@.len() as int) =~= views(ls@));
    }
    t
}

} // verus!
