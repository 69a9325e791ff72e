//! Multi-platform diagnostics: `/proc` parsers, the diagnostic data model and
//! the anomaly heuristics, and the assembly of a diagnostic bundle from the
//! texts of the `/proc` sources.
//!
//! Assembly never aborts on a missing source: each source that could not be
//! read is recorded as a warning report inside the bundle, so the bundle
//! always describes exactly what could and could not be observed.
pub mod context;
pub mod proc;
pub mod report;

use vstd::prelude::*;

use crate::diag::proc::{
    diskstats_of, disk_views, meminfo_of, mount_views, mounts_of, net_devs_of, net_views,
    parse_diskstats, parse_meminfo, parse_mounts, parse_net_dev, parse_version, release_of,
    KernelInfo, MemInfo, MountEntry, MountEntryView,
};
use crate::diag::report::{
    anomalies_of, anomaly_views, detect_anomalies, DiagReport, DiagnosticBundle, HostInfo,
    PlatformInfo, Severity,
};
use crate::text::{insert_sorted_distinct, lines, push_str, string_views, strictly_sorted, trim};
use crate::types::now_unix;

verus! {

/// What reading the `/proc` sources produced: each source's text, or the
/// description of the error that prevented reading it; and the host identity.
#[derive(Debug)]
pub struct ProcSources {
    pub meminfo: Result<String, String>,
    pub diskstats: Result<String, String>,
    pub net_dev: Result<String, String>,
    pub mounts: Result<String, String>,
    pub version: Result<String, String>,
    pub host: HostInfo,
}

/// The paths of the five sources, in the order they are collected.
pub open spec fn source_paths() -> Seq<Seq<char>> {
    seq!["/proc/meminfo"@, "/proc/diskstats"@, "/proc/net/dev"@, "/proc/mounts"@, "/proc/version"@]
}

/// The five source results, in collection order.
pub open spec fn source_results(s: ProcSources) -> Seq<Result<String, String>> {
    seq![s.meminfo, s.diskstats, s.net_dev, s.mounts, s.version]
}

/// The `(path, error)` pairs of the sources that could not be read, in
/// collection order.
pub open spec fn failed_sources_upto(s: ProcSources, n: int) -> Seq<(Seq<char>, Seq<char>)>
    decreases n,
{
    if n <= 0 {
        Seq::<(Seq<char>, Seq<char>)>::empty()
    } else {
        let r = failed_sources_upto(s, n - 1);
        match source_results(s)[n - 1] {
            Ok(_) => r,
            Err(e) => r.push((source_paths()[n - 1], e@)),
        }
    }
}

/// The "collector unavailable" note recorded for a source that could not be
/// read: a warning from `hpc-diag` whose message names the path and the error
/// and whose context maps `source` to the path.
pub open spec fn is_unavailable_note(r: DiagReport, path: Seq<char>, err: Seq<char>) -> bool {
    &&& r.source@ == "hpc-diag"@
    &&& r.severity == Severity::Warning
    &&& r.kind@ == "collector_unavailable"@
    &&& r.message@ == "could not read "@ + path + ": "@ + err
    &&& r.context@ == Map::<Seq<char>, Seq<char>>::empty().insert("source"@, path)
}

/// Distinct filesystem types of a mount table: strictly sorted, and exactly
/// the set of types that occur.
pub open spec fn is_distinct_fs_types(fs: Seq<Seq<char>>, mounts: Seq<MountEntryView>) -> bool {
    &&& strictly_sorted(fs)
    &&& fs.to_set() == mounts.map_values(|m: MountEntryView| m.fs_type).to_set()
}

/// The reports after collecting the first `k` sources: the contributed
/// reports, then one note per failed source among them.
pub open spec fn notes_hold(
    r: Seq<DiagReport>,
    contributed: Seq<DiagReport>,
    s: ProcSources,
    k: int,
) -> bool {
    &&& r.len() == contributed.len() + failed_sources_upto(s, k).len()
    &&& r.take(contributed.len() as int) == contributed
    &&& forall|i: int|
        0 <= i < failed_sources_upto(s, k).len() ==> is_unavailable_note(
            #[trigger] r[contributed.len() + i],
            failed_sources_upto(s, k)[i].0,
            failed_sources_upto(s, k)[i].1,
        )
}

proof fn lemma_note_step(
    prev: Seq<DiagReport>,
    next: Seq<DiagReport>,
    contributed: Seq<DiagReport>,
    s: ProcSources,
    k: int,
)
    requires
        0 <= k < 5,
        notes_hold(prev, contributed, s, k),
        match source_results(s)[k] {
            Ok(_) => next == prev,
            Err(e) => next.len() == prev.len() + 1 && next.take(prev.len() as int) == prev
                && is_unavailable_note(next.last(), source_paths()[k], e@),
        },
    ensures
        notes_hold(next, contributed, s, k + 1),
{
    let f = failed_sources_upto(s, k);
    let n = contributed.len() as int;
    match source_results(s)[k] {
        Ok(_) => {},
        Err(e) => {
            assert(failed_sources_upto(s, k + 1) == f.push((source_paths()[k], e@)));
            assert forall|i: int| 0 <= i < f.len() implies #[trigger] next[n + i] == prev[n + i] by {
                assert(next.take(prev.len() as int)[n + i] == next[n + i]);
            }
            assert(next.take(n) =~= prev.take(n)) by {
                assert forall|i: int| 0 <= i < n implies next.take(n)[i] == prev.take(n)[i] by {
                    assert(next.take(prev.len() as int)[i] == next[i]);
                }
            }
            let g = failed_sources_upto(s, k + 1);
            assert forall|i: int| 0 <= i < g.len() implies is_unavailable_note(
                #[trigger] next[n + i],
                g[i].0,
                g[i].1,
            ) by {
                if i < f.len() {
                    assert(next[n + i] == prev[n + i]);
                } else {
                    assert(n + i == next.len() - 1);
                }
            }
        },
    }
}

/// Build the "collector unavailable" note for `path`.
fn unavailable(path: &str, err: &str) -> (r: DiagReport)
    ensures
        is_unavailable_note(r, path@, err@),
{
    let mut msg = String::new();
    push_str(&mut msg, "could not read ");
    push_str(&mut msg, path);
    push_str(&mut msg, ": ");
    push_str(&mut msg, err);
    let r = DiagReport::warning("hpc-diag", "collector_unavailable", msg.as_str());
    r.with_context("source", path)
}

/// Distinct filesystem types of `mounts`, sorted.
pub fn distinct_fs_types(mounts: &Vec<MountEntry>) -> (fs: Vec<String>)
    ensures
        is_distinct_fs_types(string_views(fs@), mount_views(mounts@)),
{
    let mut fs: Vec<String> = Vec::new();
    let mut i: usize = 0;
    let ghost types = mount_views(mounts@).map_values(|m: MountEntryView| m.fs_type);
    proof {
        assert(string_views(fs@).to_set() =~= types.take(0).to_set());
    }
    while i < mounts.len()
        invariant
            i <= mounts.len(),
            types == mount_views(mounts@).map_values(|m: MountEntryView| m.fs_type),
            strictly_sorted(string_views(fs@)),
            string_views(fs@).to_set() =~= types.take(i as int).to_set(),
        decreases mounts.len() - i,
    {
        insert_sorted_distinct(&mut fs, mounts[i].fs_type.as_str());
        proof {
            assert(types[i as int] == mounts@[i as int].fs_type@);
            assert(types.take(i + 1) =~= types.take(i as int).push(types[i as int]));
            types.take(i as int).lemma_push_to_set_commute(types[i as int]);
            assert(types.take(i as int).push(types[i as int]).to_set() =~= types.take(
                i as int,
            ).to_set().insert(types[i as int]));
        }
        i = i + 1;
    }
    proof {
        assert(types.take(mounts@.len() as int) =~= types);
    }
    fs
}

/// Append the unavailable note for `path` when `res` is an error.
fn note_failure<'a>(
    reports: &mut Vec<DiagReport>,
    res: &'a Result<String, String>,
    path: &str,
) -> (text: Option<&'a String>)
    ensures
        match res {
            Ok(t) => text == Some(t) && final(reports)@ == old(reports)@,
            Err(e) => text.is_none() && final(reports)@.len() == old(reports)@.len() + 1
                && final(reports)@.take(old(reports)@.len() as int) == old(reports)@
                && is_unavailable_note(final(reports)@.last(), path@, e@),
        },
{
    match res {
        Ok(t) => Some(t),
        Err(e) => {
            let note = unavailable(path, e.as_str());
            reports.push(note);
            proof {
                assert(final(reports)@.take(old(reports)@.len() as int) =~= old(reports)@);
            }
            None
        },
    }
}

/// The kernel identity read from a `/proc/version` text.
pub open spec fn kernel_of(text: Seq<char>, k: KernelInfo) -> bool {
    k.raw@ == trim(text) && k.release@ == release_of(trim(text))
}

/// `b` is the bundle assembled from `sources` with the contributed
/// `reports`: schema version and host; the contributed reports, then one
/// unavailable note per source that could not be read; each readable source
/// parsed (an unreadable one contributes nothing); the distinct filesystem
/// types; and the anomalies the heuristics find in all that.
pub open spec fn is_bundle_of(b: DiagnosticBundle, reports: Seq<DiagReport>, sources: ProcSources) -> bool {
    &&& b.schema_version == DiagnosticBundle::SCHEMA_VERSION
    &&& b.host == sources.host
    &&& notes_hold(b.reports@, reports, sources, 5)
    &&& b.memory == match sources.meminfo {
        Ok(t) => Some(meminfo_of(lines(t@))),
        Err(_) => None::<MemInfo>,
        }
    &&& disk_views(b.disks@) == match sources.diskstats {
        Ok(t) => diskstats_of(lines(t@)),
        Err(_) => Seq::empty(),
        }
    &&& net_views(b.network@) == match sources.net_dev {
        Ok(t) => net_devs_of(lines(t@)),
        Err(_) => Seq::empty(),
        }
    &&& mount_views(b.platform.mounts@) == match sources.mounts {
        Ok(t) => mounts_of(lines(t@)),
        Err(_) => Seq::empty(),
        }
    &&& match sources.version {
        Ok(t) => kernel_of(t@, b.platform.kernel),
        Err(_) => b.platform.kernel.raw@.len() == 0 && b.platform.kernel.release@.len() == 0,
        }
    &&& is_distinct_fs_types(string_views(b.platform.filesystems@), mount_views(b.platform.mounts@))
    &&& anomaly_views(b.anomalies@) == anomalies_of(
        b.memory,
        b.platform.kernel.release@,
        string_views(b.platform.filesystems@),
        mount_views(b.platform.mounts@),
        )
}

/// Assemble a full diagnostic bundle from the `/proc` source texts, embedding
/// the contributed `reports` first and then one unavailable note per source
/// that could not be read. Sources that could not be read contribute nothing
/// else (no memory figures, no rows, an empty kernel identity); the rest are
/// parsed, and the anomaly heuristics run over the result.
pub fn collect_with_reports(reports: Vec<DiagReport>, sources: ProcSources) -> (b:
    DiagnosticBundle)
    ensures
        is_bundle_of(b, reports@, sources),
{
    let mut reports = reports;
    let ghost contributed = reports@;
    proof {
        assert(reports@.take(contributed.len() as int) =~= contributed);
    }
    let ghost r0 = reports@;
    let memory = match note_failure(&mut reports, &sources.meminfo, "/proc/meminfo") {
        Some(t) => Some(parse_meminfo(t.as_str())),
        None => None,
    };
    proof {
        lemma_note_step(r0, reports@, contributed, sources, 0);
    }
    let ghost r1 = reports@;
    let disks = match note_failure(&mut reports, &sources.diskstats, "/proc/diskstats") {
        Some(t) => parse_diskstats(t.as_str()),
        None => Vec::new(),
    };
    proof {
        lemma_note_step(r1, reports@, contributed, sources, 1);
    }
    let ghost r2 = reports@;
    let network = match note_failure(&mut reports, &sources.net_dev, "/proc/net/dev") {
        Some(t) => parse_net_dev(t.as_str()),
        None => Vec::new(),
    };
    proof {
        lemma_note_step(r2, reports@, contributed, sources, 2);
    }
    let ghost r3 = reports@;
    let mounts = match note_failure(&mut reports, &sources.mounts, "/proc/mounts") {
        Some(t) => parse_mounts(t.as_str()),
        None => Vec::new(),
    };
    proof {
        lemma_note_step(r3, reports@, contributed, sources, 3);
    }
    let ghost r4 = reports@;
    let kernel = match note_failure(&mut reports, &sources.version, "/proc/version") {
        Some(t) => parse_version(t.as_str()),
        None => KernelInfo { raw: String::new(), release: String::new() },
    };
    proof {
        lemma_note_step(r4, reports@, contributed, sources, 4);
    }
    let filesystems = distinct_fs_types(&mounts);
    let platform = PlatformInfo { kernel, filesystems, mounts };
    let anomalies = detect_anomalies(
        match &memory {
            Some(m) => Some(m),
            None => None,
        },
        &platform,
    );
    let b = DiagnosticBundle {
        schema_version: DiagnosticBundle::SCHEMA_VERSION,
        generated_at_unix: now_unix(),
        host: sources.host,
        platform,
        memory,
        disks,
        network,
        reports,
        anomalies,
    };
    proof {
        assert(disk_views(b.disks@) =~= match sources.diskstats {
            Ok(t) => diskstats_of(lines(t@)),
            Err(_) => Seq::empty(),
        });
        assert(net_views(b.network@) =~= match sources.net_dev {
            Ok(t) => net_devs_of(lines(t@)),
            Err(_) => Seq::empty(),
        });
        assert(mount_views(b.platform.mounts@) =~= match sources.mounts {
            Ok(t) => mounts_of(lines(t@)),
            Err(_) => Seq::empty(),
        });
    }
    b
}

/// Assemble a full diagnostic bundle with no contributed reports.
pub fn collect(sources: ProcSources) -> (b: DiagnosticBundle)
    ensures
        is_bundle_of(b, Seq::empty(), sources),
{
    let none: Vec<DiagReport> = Vec::new();
    proof {
        assert(none@ =~= Seq::<DiagReport>::empty());
    }
    collect_with_reports(none, sources)
}

} // verus!
