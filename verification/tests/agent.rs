use hpc::agent::{choose_node_id, disk_io_counters, net_totals, Executor, FsPlan, ProcessOutput};
use hpc::types::{DeployAction, DeploySpec, FsAction, FsSpec};

fn fs(action: FsAction) -> FsSpec {
    FsSpec {
        command_id: "c1".into(),
        action,
        device: "/dev/sdb1".into(),
        mount_point: "/mnt/data".into(),
        fs_type: "xfs".into(),
        mount_options: vec!["noatime".into()],
        force: false,
    }
}

fn settled(plan: FsPlan) -> hpc::types::CommandOutcome {
    match plan {
        FsPlan::Done(o) => o,
        FsPlan::Execute(argv) => panic!("expected a settled outcome, got argv {argv:?}"),
    }
}

#[test]
fn dry_run_mount_is_success_without_side_effects() {
    let exec = Executor::new("n1", false);
    let outcome = settled(exec.plan_fs(&fs(FsAction::Mount)));
    assert!(outcome.success);
    assert!(outcome.message.contains("dry-run"));
    assert!(outcome.message.contains("/dev/sdb1"));
}

#[test]
fn format_without_force_is_rejected() {
    let exec = Executor::new("n1", true);
    let outcome = settled(exec.plan_fs(&fs(FsAction::Format)));
    assert!(!outcome.success);
    assert!(outcome.message.contains("force"));
}

// ---------------------------------------------------------------------------

#[test]
fn dry_run_message_names_the_exact_argv() {
    let exec = Executor::new("n1", false);
    let o = settled(exec.plan_fs(&fs(FsAction::Mount)));
    assert_eq!(o.message, "dry-run: would execute `mount -t xfs -o noatime /dev/sdb1 /mnt/data`");
    assert_eq!(o.command_id, "c1");
    assert_eq!(o.node_id, "n1");
    assert_eq!(o.exit_code, 0);
}

#[test]
fn argv_for_each_action() {
    let exec = Executor::new("n1", true);
    assert_eq!(
        exec.build_argv(&fs(FsAction::Mount)).unwrap(),
        vec!["mount", "-t", "xfs", "-o", "noatime", "/dev/sdb1", "/mnt/data"]
    );
    assert_eq!(exec.build_argv(&fs(FsAction::Unmount)).unwrap(), vec!["umount", "/mnt/data"]);
    assert_eq!(
        exec.build_argv(&fs(FsAction::Remount)).unwrap(),
        vec!["mount", "-o", "remount,noatime", "/mnt/data"]
    );
    assert_eq!(exec.build_argv(&fs(FsAction::Check)).unwrap(), vec!["fsck", "-n", "/dev/sdb1"]);
    let mut f = fs(FsAction::Format);
    f.force = true;
    assert_eq!(exec.build_argv(&f).unwrap(), vec!["mkfs.xfs", "/dev/sdb1"]);
    let mut bare = fs(FsAction::Mount);
    bare.fs_type = String::new();
    bare.mount_options = vec![];
    assert_eq!(exec.build_argv(&bare).unwrap(), vec!["mount", "/dev/sdb1", "/mnt/data"]);
    let mut rm = fs(FsAction::Remount);
    rm.mount_options = vec![];
    assert_eq!(exec.build_argv(&rm).unwrap(), vec!["mount", "-o", "remount", "/mnt/data"]);
    let mut two = fs(FsAction::Mount);
    two.mount_options = vec!["ro".into(), "noatime".into()];
    assert_eq!(exec.build_argv(&two).unwrap()[4], "ro,noatime");
}

#[test]
fn argv_validation_errors() {
    let exec = Executor::new("n1", true);
    let mut m = fs(FsAction::Mount);
    m.device = String::new();
    assert_eq!(exec.build_argv(&m).unwrap_err(), "mount requires device and mount_point");
    let mut u = fs(FsAction::Unmount);
    u.mount_point = String::new();
    assert_eq!(exec.build_argv(&u).unwrap_err(), "unmount requires mount_point");
    let mut r = fs(FsAction::Remount);
    r.mount_point = String::new();
    assert_eq!(exec.build_argv(&r).unwrap_err(), "remount requires mount_point");
    let mut c = fs(FsAction::Check);
    c.device = String::new();
    assert_eq!(exec.build_argv(&c).unwrap_err(), "check requires device");
    assert_eq!(
        exec.build_argv(&fs(FsAction::Format)).unwrap_err(),
        "format is destructive and requires force=true"
    );
    let mut f = fs(FsAction::Format);
    f.force = true;
    f.fs_type = String::new();
    assert_eq!(exec.build_argv(&f).unwrap_err(), "format requires device and fs_type");
}

#[test]
fn invalid_command_settles_with_exit_code_minus_one() {
    let exec = Executor::new("n1", false);
    let mut c = fs(FsAction::Check);
    c.device = String::new();
    let o = settled(exec.plan_fs(&c));
    assert!(!o.success);
    assert_eq!(o.exit_code, -1);
    assert_eq!(o.message, "check requires device");
}

#[test]
fn allowed_execution_hands_back_the_argv() {
    let exec = Executor::new("n1", true);
    match exec.plan_fs(&fs(FsAction::Unmount)) {
        FsPlan::Execute(argv) => assert_eq!(argv, vec!["umount", "/mnt/data"]),
        FsPlan::Done(o) => panic!("unexpected outcome {o:?}"),
    }
}

#[test]
fn finished_process_outcomes() {
    let exec = Executor::new("n1", true);
    let spec = fs(FsAction::Unmount);
    let argv = vec!["umount".to_string(), "/mnt/data".to_string()];
    let ok = exec.finish_fs(
        &spec,
        &argv,
        Ok(ProcessOutput { success: false, code: Some(32), stdout: "o".into(), stderr: "e".into() }),
    );
    assert!(!ok.success);
    assert_eq!(ok.exit_code, 32);
    assert_eq!(ok.message, "`umount /mnt/data` exited with 32");
    assert_eq!(ok.stdout, "o");
    assert_eq!(ok.stderr, "e");
    let killed = exec.finish_fs(
        &spec,
        &argv,
        Ok(ProcessOutput { success: false, code: None, stdout: String::new(), stderr: String::new() }),
    );
    assert_eq!(killed.exit_code, -1);
    assert_eq!(killed.message, "`umount /mnt/data` exited with -1");
    let failed = exec.finish_fs(&spec, &argv, Err("No such file or directory".into()));
    assert!(!failed.success);
    assert_eq!(failed.message, "failed to spawn `umount /mnt/data`: No such file or directory");
}

#[test]
fn deploys_are_simulated() {
    let exec = Executor::new("n7", true);
    let spec = DeploySpec {
        deployment_id: "d1".into(),
        action: DeployAction::Upgrade,
        component: "lustre-client".into(),
        version: String::new(),
        target_path: "/opt/lustre".into(),
        options: Default::default(),
    };
    let o = exec.run_deploy(&spec);
    assert!(o.success);
    assert_eq!(o.exit_code, 0);
    assert_eq!(o.command_id, "d1");
    assert_eq!(o.node_id, "n7");
    assert_eq!(o.message, "Upgrade lustre-client vlatest -> /opt/lustre (simulated)");
    let spec2 = DeploySpec { version: "2.15".into(), target_path: String::new(), ..spec };
    assert_eq!(exec.run_deploy(&spec2).message, "Upgrade lustre-client v2.15 -> <default> (simulated)");
}

#[test]
fn node_id_prefers_configuration_then_host() {
    assert_eq!(choose_node_id("storage-01", Some("host".into())), "storage-01");
    assert_eq!(choose_node_id("   ", Some("host".into())), "host");
    assert_eq!(choose_node_id("", None), "unknown-node");
}

#[test]
fn disk_counters_skip_loop_and_ram_devices() {
    let text = "\
   8       0 sda 100 0 2000 30 200 0 4000 60 0 90 90
   7       0 loop0 1 0 8 0 0 0 0 0 0 0 0
   1       0 ram0 1 0 8 0 0 0 0 0 0 0 0
 259       0 nvme0n1 5 0 40 1 6 0 x 2 0 3 3
   8       1 sda1 1 0 2 0 3 0 4";
    let d = disk_io_counters(text);
    assert_eq!(d.len(), 2);
    assert_eq!(d[0].device, "sda");
    assert_eq!(d[0].read_bytes, 2000 * 512);
    assert_eq!(d[0].write_bytes, 4000 * 512);
    assert_eq!(d[1].device, "sda1");
    assert_eq!(d[1].write_bytes, 4 * 512);
}

#[test]
fn net_totals_skip_loopback() {
    let text = "\
Inter-|   Receive                                                |  Transmit
 face |bytes    packets errs drop fifo frame compressed multicast|bytes    packets errs drop fifo colls carrier compressed
    lo: 1000000     100    0    0    0     0          0         0  1000000     100    0    0    0     0       0          0
  eth0: 500000     400    2    0    0     0          0         0   750000     500    7    0    0     0       0          0
  eth1: 10     1    1    0    0     0          0         0   20     1    x    0    0     0       0          0";
    let t = net_totals(text);
    assert_eq!(t.rx_bytes, 500_010);
    assert_eq!(t.tx_bytes, 750_020);
    assert_eq!(t.rx_errors, 3);
    assert_eq!(t.tx_errors, 7);
}
