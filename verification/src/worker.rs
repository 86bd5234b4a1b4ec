//! The supervisor's working state: the catalog plus the state and log
//! directories, and the operations that reconcile and partition projects
//! against the set of live running records.

use vstd::prelude::*;

use crate::config::{
    project_eq, projects_eq, running_eq, runnings_eq, str_eq, Project, RunningProject,
    WorkerProject,
};
use crate::state::{spec_parse_entry, spec_parse_running};
use crate::sys::has_processes_running;

verus! {

/// The first running record carrying the given name, if any.
pub open spec fn spec_find_running(running: Seq<RunningProject>, name: Seq<char>) -> Option<
    RunningProject,
>
    decreases running.len(),
{
    if running.len() == 0 {
        None
    } else if running[0].name@ == name {
        Some(running[0])
    } else {
        spec_find_running(running.drop_first(), name)
    }
}

/// Whether some running record carries the given name.
pub open spec fn spec_contains_name(running: Seq<RunningProject>, name: Seq<char>) -> bool {
    exists|i: int| 0 <= i < running.len() && #[trigger] running[i].name@ == name
}

/// A record is found under a name exactly when some record carries it.
pub proof fn lemma_find_running_iff_contains(running: Seq<RunningProject>, name: Seq<char>)
    ensures
        spec_find_running(running, name) is Some <==> spec_contains_name(running, name),
    decreases running.len(),
{
    if running.len() > 0 {
        lemma_find_running_iff_contains(running.drop_first(), name);
        if running[0].name@ == name {
        } else {
            assert(spec_contains_name(running, name) ==> spec_contains_name(
                running.drop_first(),
                name,
            )) by {
                if spec_contains_name(running, name) {
                    let i = choose|i: int|
                        0 <= i < running.len() && #[trigger] running[i].name@ == name;
                    assert(running.drop_first()[i - 1].name@ == name);
                }
            }
            assert(spec_contains_name(running.drop_first(), name) ==> spec_contains_name(
                running,
                name,
            )) by {
                if spec_contains_name(running.drop_first(), name) {
                    let i = choose|i: int|
                        0 <= i < running.drop_first().len() && #[trigger] running.drop_first()[i].name@
                            == name;
                    assert(running[i + 1].name@ == name);
                }
            }
        }
    }
}

/// What is found under a name is one of the records and carries that name.
pub proof fn lemma_find_running_member(running: Seq<RunningProject>, name: Seq<char>)
    requires
        spec_find_running(running, name) is Some,
    ensures
        running.contains(spec_find_running(running, name).unwrap()),
        spec_find_running(running, name).unwrap().name@ == name,
    decreases running.len(),
{
    if running.len() > 0 {
        if running[0].name@ == name {
            assert(running[0] == spec_find_running(running, name).unwrap());
        } else {
            lemma_find_running_member(running.drop_first(), name);
            let rp = spec_find_running(running, name).unwrap();
            let i = choose|i: int|
                0 <= i < running.drop_first().len() && running.drop_first()[i] == rp;
            assert(running[i + 1] == rp);
        }
    }
}

/// When the first `i` records do not carry the name and the `i`-th does,
/// the `i`-th is the one found.
proof fn lemma_find_running_at(running: Seq<RunningProject>, name: Seq<char>, i: int)
    requires
        0 <= i < running.len(),
        running[i].name@ == name,
        forall|k: int| 0 <= k < i ==> #[trigger] running[k].name@ != name,
    ensures
        spec_find_running(running, name) == Some(running[i]),
    decreases i,
{
    if i > 0 {
        lemma_find_running_at(running.drop_first(), name, i - 1);
    }
}

/// When no record carries the name, none is found.
proof fn lemma_find_running_none(running: Seq<RunningProject>, name: Seq<char>)
    requires
        forall|k: int| 0 <= k < running.len() ==> #[trigger] running[k].name@ != name,
    ensures
        spec_find_running(running, name) is None,
    decreases running.len(),
{
    if running.len() > 0 {
        lemma_find_running_none(running.drop_first(), name);
    }
}

/// The index of the first running record carrying the given name, if any.
fn find_running_index(running: &Vec<RunningProject>, name: &str) -> (r: Option<usize>)
    ensures
        match spec_find_running(running@, name@) {
            None => r is None,
            Some(rp) => r matches Some(i) && i < running@.len() && running@[i as int] == rp,
        },
{
    let mut i: usize = 0;
    while i < running.len()
        invariant
            i <= running.len(),
            forall|k: int| 0 <= k < i ==> #[trigger] running@[k].name@ != name@,
        decreases running.len() - i,
    {
        if str_eq(running[i].name.as_str(), name) {
            proof {
                lemma_find_running_at(running@, name@, i as int);
            }
            return Some(i);
        }
        i = i + 1;
    }
    proof {
        lemma_find_running_none(running@, name@);
    }
    None
}

/// The requested projects split against the running records, in request
/// order: those already running, as the record found under their name, and
/// those not running, as their definition.
pub open spec fn spec_partition(reqs: Seq<Project>, running: Seq<RunningProject>) -> (Seq<
    RunningProject,
>, Seq<Project>)
    decreases reqs.len(),
{
    if reqs.len() == 0 {
        (Seq::<RunningProject>::empty(), Seq::<Project>::empty())
    } else {
        let rest = spec_partition(reqs.drop_last(), running);
        match spec_find_running(running, reqs.last().name@) {
            Some(rp) => (rest.0.push(rp), rest.1),
            None => (rest.0, rest.1.push(reqs.last())),
        }
    }
}

/// Like records followed by like records are like.
proof fn lemma_runnings_eq_push(
    a: Seq<RunningProject>,
    b: Seq<RunningProject>,
    x: RunningProject,
    y: RunningProject,
)
    requires
        runnings_eq(a, b),
        running_eq(x, y),
    ensures
        runnings_eq(a.push(x), b.push(y)),
{
    assert forall|i: int| 0 <= i < a.push(x).len() implies running_eq(
        #[trigger] a.push(x)[i],
        b.push(y)[i],
    ) by {
        if i < a.len() {
            assert(running_eq(a[i], b[i]));
        }
    }
}

/// Like definitions followed by like definitions are like.
proof fn lemma_projects_eq_push(a: Seq<Project>, b: Seq<Project>, x: Project, y: Project)
    requires
        projects_eq(a, b),
        project_eq(x, y),
    ensures
        projects_eq(a.push(x), b.push(y)),
{
    assert forall|i: int| 0 <= i < a.push(x).len() implies project_eq(
        #[trigger] a.push(x)[i],
        b.push(y)[i],
    ) by {
        if i < a.len() {
            assert(project_eq(a[i], b[i]));
        }
    }
}

/// The record one state-store listing stands for: the snapshot read from
/// the entry's content, paired with the session id decoded from its key.
/// Nothing when the content was unreadable, the key does not decode, or
/// the two name different projects.
pub open spec fn spec_entry_record(entry: (String, Option<Project>)) -> Option<RunningProject> {
    match entry.1 {
        None => None,
        Some(snap) => spec_parse_running(entry.0@, snap),
    }
}

/// One state-store pass over the listed entries — each a composite key
/// with the snapshot read from its file — given one liveness answer per
/// entry: a record whose session is alive is kept, a decodable key whose
/// session is dead is marked stale whatever its content holds, and an
/// entry whose key does not decode is passed over. An entry with a
/// decodable key but unreadable or mismatched content is kept out of the
/// running view while its session lives and is garbage-collected like any
/// other once it dies.
pub open spec fn spec_reconcile(
    entries: Seq<(String, Option<Project>)>,
    alive: Seq<bool>,
) -> (Seq<RunningProject>, Seq<String>)
    decreases entries.len(),
{
    if entries.len() == 0 {
        (Seq::<RunningProject>::empty(), Seq::<String>::empty())
    } else {
        let rest = spec_reconcile(entries.drop_last(), alive.drop_last());
        match spec_parse_entry(entries.last().0@) {
            None => rest,
            Some(decoded) => if alive.len() >= 1 && alive.last() {
                match spec_entry_record(entries.last()) {
                    Some(rp) => (rest.0.push(rp), rest.1),
                    None => rest,
                }
            } else {
                (rest.0, rest.1.push(entries.last().0))
            },
        }
    }
}

/// Pushing onto a sequence keeps what it contains.
proof fn lemma_contains_push<A>(s: Seq<A>, x: A, y: A)
    requires
        s.contains(x),
    ensures
        s.push(y).contains(x),
{
    let k = choose|k: int| 0 <= k < s.len() && s[k] == x;
    assert(s.push(y)[k] == x);
}

/// A requested project that no running record names is queued for
/// daemonization: it lands on the not-running side of the partition. This
/// is the decision half of starting a fresh project.
pub proof fn lemma_partition_starts_not_running(
    reqs: Seq<Project>,
    running: Seq<RunningProject>,
    i: int,
)
    requires
        0 <= i < reqs.len(),
        !spec_contains_name(running, reqs[i].name@),
    ensures
        spec_partition(reqs, running).1.contains(reqs[i]),
    decreases reqs.len(),
{
    lemma_find_running_iff_contains(running, reqs[i].name@);
    let rest = spec_partition(reqs.drop_last(), running);
    if i == reqs.len() - 1 {
        assert(spec_partition(reqs, running).1 == rest.1.push(reqs[i]));
        assert(rest.1.push(reqs[i])[rest.1.len() as int] == reqs[i]);
    } else {
        assert(reqs.drop_last()[i] == reqs[i]);
        lemma_partition_starts_not_running(reqs.drop_last(), running, i);
        match spec_find_running(running, reqs.last().name@) {
            Some(rp) => {},
            None => {
                lemma_contains_push(rest.1, reqs[i], reqs.last());
            },
        }
    }
}

/// The not-running side of the partition holds only projects that no
/// running record names. In particular a project already running is never
/// daemonized a second time: starting is idempotent at the decision level.
pub proof fn lemma_partition_right_not_running(reqs: Seq<Project>, running: Seq<RunningProject>)
    ensures
        forall|j: int|
            0 <= j < spec_partition(reqs, running).1.len() ==> !spec_contains_name(
                running,
                #[trigger] spec_partition(reqs, running).1[j].name@,
            ),
    decreases reqs.len(),
{
    if reqs.len() > 0 {
        lemma_partition_right_not_running(reqs.drop_last(), running);
        lemma_find_running_iff_contains(running, reqs.last().name@);
        let rest = spec_partition(reqs.drop_last(), running);
        match spec_find_running(running, reqs.last().name@) {
            Some(rp) => {},
            None => {
                assert forall|j: int|
                    0 <= j < spec_partition(reqs, running).1.len() implies !spec_contains_name(
                    running,
                    #[trigger] spec_partition(reqs, running).1[j].name@,
                ) by {
                    if j < rest.1.len() {
                        assert(spec_partition(reqs, running).1[j] == rest.1[j]);
                    }
                }
            },
        }
    }
}

/// Every signal target of the partition is one of the running records:
/// the running side never invents a record.
pub proof fn lemma_partition_left_running(reqs: Seq<Project>, running: Seq<RunningProject>)
    ensures
        forall|j: int|
            0 <= j < spec_partition(reqs, running).0.len() ==> running.contains(
                #[trigger] spec_partition(reqs, running).0[j],
            ),
    decreases reqs.len(),
{
    if reqs.len() > 0 {
        lemma_partition_left_running(reqs.drop_last(), running);
        let rest = spec_partition(reqs.drop_last(), running);
        match spec_find_running(running, reqs.last().name@) {
            Some(rp) => {
                lemma_find_running_member(running, reqs.last().name@);
                assert forall|j: int|
                    0 <= j < spec_partition(reqs, running).0.len() implies running.contains(
                    #[trigger] spec_partition(reqs, running).0[j],
                ) by {
                    if j < rest.0.len() {
                        assert(spec_partition(reqs, running).0[j] == rest.0[j]);
                    } else {
                        assert(spec_partition(reqs, running).0[j] == rp);
                    }
                }
            },
            None => {},
        }
    }
}

/// Stopping a project that is not running performs no process-table
/// action on it and only reports it: the request lands among the notices,
/// and no signal target carries its name.
pub proof fn lemma_stop_not_running(reqs: Seq<Project>, running: Seq<RunningProject>, i: int)
    requires
        0 <= i < reqs.len(),
        !spec_contains_name(running, reqs[i].name@),
    ensures
        spec_partition(reqs, running).1.contains(reqs[i]),
        forall|j: int|
            0 <= j < spec_partition(reqs, running).0.len() ==> (
            #[trigger] spec_partition(reqs, running).0[j]).name@ != reqs[i].name@,
{
    lemma_partition_starts_not_running(reqs, running, i);
    lemma_partition_left_running(reqs, running);
    assert forall|j: int|
        0 <= j < spec_partition(reqs, running).0.len() implies (
    #[trigger] spec_partition(reqs, running).0[j]).name@ != reqs[i].name@ by {
        let target = spec_partition(reqs, running).0[j];
        assert(running.contains(target));
        let k = choose|k: int| 0 <= k < running.len() && running[k] == target;
        assert(running[k].name@ == target.name@);
    }
}

/// Starting twice without stopping is a no-op the second time: when a
/// running record already carries a requested name, no project of that
/// name is queued for daemonization.
pub proof fn lemma_start_idempotent(reqs: Seq<Project>, running: Seq<RunningProject>, i: int)
    requires
        0 <= i < reqs.len(),
        spec_contains_name(running, reqs[i].name@),
    ensures
        forall|j: int|
            0 <= j < spec_partition(reqs, running).1.len() ==> (
            #[trigger] spec_partition(reqs, running).1[j]).name@ != reqs[i].name@,
{
    lemma_partition_right_not_running(reqs, running);
}

/// Reconciliation garbage-collects on its own: an entry whose key decodes
/// and whose session is no longer alive is handed back as stale, to be
/// removed, on the very next pass — whatever its stored content holds,
/// and whether or not the catalog still knows the name.
pub proof fn lemma_reconcile_gc(
    entries: Seq<(String, Option<Project>)>,
    alive: Seq<bool>,
    i: int,
)
    requires
        alive.len() == entries.len(),
        0 <= i < entries.len(),
        spec_parse_entry(entries[i].0@) is Some,
        !alive[i],
    ensures
        spec_reconcile(entries, alive).1.contains(entries[i].0),
    decreases entries.len(),
{
    let rest = spec_reconcile(entries.drop_last(), alive.drop_last());
    if i == entries.len() - 1 {
        assert(spec_reconcile(entries, alive).1 == rest.1.push(entries[i].0));
        assert(rest.1.push(entries[i].0)[rest.1.len() as int] == entries[i].0);
    } else {
        assert(entries.drop_last()[i] == entries[i]);
        assert(alive.drop_last()[i] == alive[i]);
        lemma_reconcile_gc(entries.drop_last(), alive.drop_last(), i);
        match spec_parse_entry(entries.last().0@) {
            None => {},
            Some(decoded) => {
                if alive.len() >= 1 && alive.last() {
                } else {
                    lemma_contains_push(rest.1, entries[i].0, entries.last().0);
                }
            },
        }
    }
}

/// Reconciliation keeps a record whose session is alive: the entry's
/// record is reported running.
pub proof fn lemma_reconcile_keeps_alive(
    entries: Seq<(String, Option<Project>)>,
    alive: Seq<bool>,
    i: int,
)
    requires
        alive.len() == entries.len(),
        0 <= i < entries.len(),
        spec_entry_record(entries[i]) is Some,
        alive[i],
    ensures
        spec_reconcile(entries, alive).0.contains(spec_entry_record(entries[i]).unwrap()),
    decreases entries.len(),
{
    let rest = spec_reconcile(entries.drop_last(), alive.drop_last());
    let rp = spec_entry_record(entries[i]).unwrap();
    if i == entries.len() - 1 {
        assert(spec_reconcile(entries, alive).0 == rest.0.push(rp));
        assert(rest.0.push(rp)[rest.0.len() as int] == rp);
    } else {
        assert(entries.drop_last()[i] == entries[i]);
        assert(alive.drop_last()[i] == alive[i]);
        lemma_reconcile_keeps_alive(entries.drop_last(), alive.drop_last(), i);
        match spec_parse_entry(entries.last().0@) {
            None => {},
            Some(decoded) => {
                if alive.len() >= 1 && alive.last() {
                    match spec_entry_record(entries.last()) {
                        Some(last_rp) => {
                            lemma_contains_push(rest.0, rp, last_rp);
                        },
                        None => {},
                    }
                }
            },
        }
    }
}

/// Once a project's sessions are dead, its record is absent: when every
/// entry that stands for a record of the given name saw a dead session,
/// reconciliation reports no record of that name. This is what a stop
/// that outlived its process observes within the timeout.
pub proof fn lemma_reconcile_drops_dead_name(
    entries: Seq<(String, Option<Project>)>,
    alive: Seq<bool>,
    name: Seq<char>,
)
    requires
        alive.len() == entries.len(),
        forall|k: int|
            0 <= k < entries.len() ==> ((#[trigger] spec_entry_record(entries[k]))
                matches Some(rp) && rp.name@ == name ==> !alive[k]),
    ensures
        !spec_contains_name(spec_reconcile(entries, alive).0, name),
    decreases entries.len(),
{
    if entries.len() > 0 {
        assert forall|k: int|
            0 <= k < entries.drop_last().len() implies ((#[trigger] spec_entry_record(
                entries.drop_last()[k],
            )) matches Some(rp) && rp.name@ == name ==> !alive.drop_last()[k]) by {
            assert(entries[k] == entries.drop_last()[k]);
            assert(alive[k] == alive.drop_last()[k]);
        }
        lemma_reconcile_drops_dead_name(entries.drop_last(), alive.drop_last(), name);
        let rest = spec_reconcile(entries.drop_last(), alive.drop_last());
        let whole = spec_reconcile(entries, alive);
        match spec_parse_entry(entries.last().0@) {
            None => {},
            Some(decoded) => {
                if alive.len() >= 1 && alive.last() {
                    match spec_entry_record(entries.last()) {
                        None => {},
                        Some(rp) => {
                            assert(rp.name@ != name) by {
                                assert(entries[entries.len() - 1] == entries.last());
                                assert(alive[entries.len() - 1]);
                            }
                            assert(!spec_contains_name(whole.0, name)) by {
                                if spec_contains_name(whole.0, name) {
                                    let i = choose|i: int|
                                        0 <= i < whole.0.len() && #[trigger] whole.0[i].name@
                                            == name;
                                    if i < rest.0.len() {
                                        assert(rest.0[i].name@ == name);
                                    }
                                }
                            }
                        },
                    }
                } else {
                    assert(!spec_contains_name(whole.0, name)) by {
                        if spec_contains_name(whole.0, name) {
                            let i = choose|i: int|
                                0 <= i < whole.0.len() && #[trigger] whole.0[i].name@ == name;
                            assert(rest.0[i].name@ == name);
                        }
                    }
                }
            },
        }
    }
}

/// A started project whose session lives is reported running: the record
/// written under its composite key, read back with its stored snapshot,
/// is kept by a reconciliation pass that sees its session alive.
pub proof fn lemma_started_project_reported(
    entries: Seq<(String, Option<Project>)>,
    alive: Seq<bool>,
    snapshot: Project,
    pid: int,
    i: int,
)
    requires
        alive.len() == entries.len(),
        0 <= i < entries.len(),
        entries[i].0@ == crate::state::spec_state_file_name(snapshot.name@, pid),
        entries[i].1 == Some(snapshot),
        0 <= pid <= 0x7fff_ffff,
        alive[i],
    ensures
        spec_contains_name(spec_reconcile(entries, alive).0, snapshot.name@),
{
    crate::state::lemma_started_record_discoverable(snapshot, pid);
    lemma_reconcile_keeps_alive(entries, alive, i);
    let rp = spec_entry_record(entries[i]).unwrap();
    let kept = spec_reconcile(entries, alive).0;
    let k = choose|k: int| 0 <= k < kept.len() && kept[k] == rp;
    assert(kept[k].name@ == snapshot.name@);
}

/// Reconciliation never invents a record: everything kept stands for some
/// listed entry whose session was seen alive.
pub proof fn lemma_reconcile_kept_from_alive(
    entries: Seq<(String, Option<Project>)>,
    alive: Seq<bool>,
)
    requires
        alive.len() == entries.len(),
    ensures
        forall|j: int|
            0 <= j < spec_reconcile(entries, alive).0.len() ==> exists|k: int|
                0 <= k < entries.len() && alive[k] && spec_entry_record(#[trigger] entries[k])
                    == Some(#[trigger] spec_reconcile(entries, alive).0[j]),
    decreases entries.len(),
{
    if entries.len() > 0 {
        lemma_reconcile_kept_from_alive(entries.drop_last(), alive.drop_last());
        let rest = spec_reconcile(entries.drop_last(), alive.drop_last());
        let whole = spec_reconcile(entries, alive);
        assert forall|j: int| 0 <= j < whole.0.len() implies exists|k: int|
            0 <= k < entries.len() && alive[k] && spec_entry_record(#[trigger] entries[k]) == Some(
                #[trigger] whole.0[j],
            ) by {
            if j < rest.0.len() {
                assert(whole.0[j] == rest.0[j]);
                let k = choose|k: int|
                    0 <= k < entries.drop_last().len() && alive.drop_last()[k]
                        && spec_entry_record(#[trigger] entries.drop_last()[k]) == Some(
                        rest.0[j],
                    );
                assert(entries[k] == entries.drop_last()[k]);
                assert(alive[k] == alive.drop_last()[k]);
                assert(spec_entry_record(entries[k]) == Some(whole.0[j]));
            } else {
                let k = entries.len() - 1;
                assert(spec_entry_record(entries[k]) == Some(whole.0[j]));
                assert(alive[k]);
            }
        }
    }
}

/// Reconciliation removes only its own state: everything marked stale is
/// the key of one of the listed entries, decodes, and saw a dead session.
/// Log files and unrelated files are never touched.
pub proof fn lemma_reconcile_stale_from_entries(
    entries: Seq<(String, Option<Project>)>,
    alive: Seq<bool>,
)
    requires
        alive.len() == entries.len(),
    ensures
        forall|j: int|
            #![trigger spec_reconcile(entries, alive).1[j]]
            0 <= j < spec_reconcile(entries, alive).1.len() ==> exists|k: int|
                0 <= k < entries.len() && !alive[k] && (#[trigger] entries[k]).0
                    == spec_reconcile(entries, alive).1[j] && spec_parse_entry(entries[k].0@)
                    is Some,
    decreases entries.len(),
{
    if entries.len() > 0 {
        lemma_reconcile_stale_from_entries(entries.drop_last(), alive.drop_last());
        let rest = spec_reconcile(entries.drop_last(), alive.drop_last());
        assert forall|j: int|
            #![trigger spec_reconcile(entries, alive).1[j]]
            0 <= j < spec_reconcile(entries, alive).1.len() implies exists|k: int|
            0 <= k < entries.len() && !alive[k] && (#[trigger] entries[k]).0 == spec_reconcile(
                entries,
                alive,
            ).1[j] && spec_parse_entry(entries[k].0@) is Some by {
            let whole = spec_reconcile(entries, alive);
            if j < rest.1.len() {
                assert(whole.1[j] == rest.1[j]);
                let k = choose|k: int|
                    0 <= k < entries.drop_last().len() && !alive.drop_last()[k] && (
                    #[trigger] entries.drop_last()[k]).0 == rest.1[j] && spec_parse_entry(
                        entries.drop_last()[k].0@,
                    ) is Some;
                assert(entries[k] == entries.drop_last()[k]);
                assert(alive[k] == alive.drop_last()[k]);
                assert(entries[k].0 == whole.1[j]);
            } else {
                let k = entries.len() - 1;
                assert(entries[k].0 == whole.1[j]);
                assert(!alive[k]);
                assert(spec_parse_entry(entries[k].0@) is Some);
            }
        }
    } else {
        assert(spec_reconcile(entries, alive).1.len() == 0);
    }
}

/// The supervisor's configuration: the project catalog and the directories
/// that hold running records and log files.
pub struct WorkerConfig {
    pub projects: Vec<Project>,
    state_dir: String,
    log_dir: String,
}

impl WorkerConfig {
    /// The catalog this configuration carries.
    pub closed spec fn spec_projects(&self) -> Seq<Project> {
        self.projects@
    }

    /// The directory holding one file per running record.
    pub closed spec fn spec_state_dir(&self) -> Seq<char> {
        self.state_dir@
    }

    /// The directory holding one log file per project.
    pub closed spec fn spec_log_dir(&self) -> Seq<char> {
        self.log_dir@
    }

    /// Assemble the configuration from the catalog and the base directory
    /// that holds the configuration file. The state and log directories
    /// are fixed subdirectories of the base.
    pub fn new(projects: Vec<Project>, base_dir: &str) -> (r: WorkerConfig)
        ensures
            r.spec_projects() == projects@,
            r.spec_state_dir() == base_dir@ + "/.worker/state"@,
            r.spec_log_dir() == base_dir@ + "/.worker/log"@,
    {
        let mut state_dir = base_dir.to_owned();
        state_dir.append("/.worker/state");
        let mut log_dir = base_dir.to_owned();
        log_dir.append("/.worker/log");
        WorkerConfig { projects, state_dir, log_dir }
    }

    /// The state directory, for the edge that lists and removes entries.
    pub fn state_dir(&self) -> (r: &str)
        ensures
            r@ == self.spec_state_dir(),
    {
        self.state_dir.as_str()
    }

    /// The log directory.
    pub fn log_dir(&self) -> (r: &str)
        ensures
            r@ == self.spec_log_dir(),
    {
        self.log_dir.as_str()
    }

    /// The path of a project's log file: the log directory joined with the
    /// project's name.
    pub fn log_file(&self, project: &Project) -> (r: String)
        ensures
            r@ == self.spec_log_dir() + "/"@ + project.name@,
    {
        let mut s = self.log_dir.clone();
        s.append("/");
        s.append(project.name.as_str());
        s
    }

    /// The path of the state-store entry for a project started with the
    /// given session id.
    pub fn state_file_path(&self, pid: i32, project: &Project) -> (r: String)
        ensures
            r@ == self.spec_state_dir() + "/"@ + crate::state::spec_state_file_name(
                project.name@,
                pid as int,
            ),
    {
        let mut s = self.state_dir.clone();
        s.append("/");
        s.append(crate::state::state_file_name(project.name.as_str(), pid).as_str());
        proof {
            assert(s@ =~= self.spec_state_dir() + "/"@ + crate::state::spec_state_file_name(
                project.name@,
                pid as int,
            ));
        }
        s
    }

    /// Whether a project is among the running records, judged by name.
    pub fn is_running(&self, project: &Project, running: &Vec<RunningProject>) -> (r: bool)
        ensures
            r == spec_contains_name(running@, project.name@),
    {
        match find_running_index(running, project.name.as_str()) {
            Some(i) => {
                proof {
                    lemma_find_running_iff_contains(running@, project.name@);
                }
                true
            },
            None => {
                proof {
                    lemma_find_running_iff_contains(running@, project.name@);
                }
                false
            },
        }
    }

    /// Split requested projects into those already running and those not,
    /// in request order. A running project appears as the record found
    /// under its name; a project with no live record appears as its
    /// definition, ready to be started.
    pub fn partition_projects<T: WorkerProject>(
        &self,
        projects: Vec<T>,
        running: &Vec<RunningProject>,
    ) -> (r: (Vec<RunningProject>, Vec<Project>))
        ensures
            runnings_eq(
                r.0@,
                spec_partition(projects@.map_values(|t: T| t.as_project()), running@).0,
            ),
            projects_eq(
                r.1@,
                spec_partition(projects@.map_values(|t: T| t.as_project()), running@).1,
            ),
    {
        let ghost mapped = projects@.map_values(|t: T| t.as_project());
        let mut left: Vec<RunningProject> = Vec::new();
        let mut right: Vec<Project> = Vec::new();
        let mut i: usize = 0;
        while i < projects.len()
            invariant
                i <= projects.len(),
                mapped == projects@.map_values(|t: T| t.as_project()),
                mapped.len() == projects@.len(),
                runnings_eq(left@, spec_partition(mapped.subrange(0, i as int), running@).0),
                projects_eq(right@, spec_partition(mapped.subrange(0, i as int), running@).1),
            decreases projects.len() - i,
        {
            let ghost prefix_old = mapped.subrange(0, i as int);
            let ghost prefix_new = mapped.subrange(0, i as int + 1);
            proof {
                assert(prefix_new.drop_last() =~= prefix_old);
                assert(prefix_new.last() == projects@[i as int].as_project());
            }
            let t = &projects[i];
            match find_running_index(running, t.name()) {
                Some(k) => {
                    let ghost old_left = left@;
                    left.push(running[k].clone());
                    proof {
                        let found = spec_find_running(
                            running@,
                            projects@[i as int].as_project().name@,
                        ).unwrap();
                        lemma_runnings_eq_push(
                            old_left,
                            spec_partition(prefix_old, running@).0,
                            left@.last(),
                            found,
                        );
                    }
                },
                None => {
                    let ghost old_right = right@;
                    right.push(t.to_project());
                    proof {
                        lemma_projects_eq_push(
                            old_right,
                            spec_partition(prefix_old, running@).1,
                            right@.last(),
                            projects@[i as int].as_project(),
                        );
                    }
                },
            }
            i = i + 1;
        }
        proof {
            assert(mapped.subrange(0, i as int) =~= mapped);
        }
        (left, right)
    }

    /// Reconcile the state store against the operating system's process
    /// table. Each listed entry is a composite key with the definition
    /// snapshot read from its file (or nothing when the content was
    /// unreadable). For every entry whose key decodes, the process table
    /// is asked whether its session is still alive; records of live
    /// sessions are kept, and the keys of dead sessions are handed back
    /// as stale, to have their files removed — whatever their content
    /// held. Entries whose key does not decode are passed over, as
    /// corrupt state that disappears once its process is gone. The third
    /// result holds the liveness answer received for each entry, and the
    /// first two are exactly the reconciliation of the entries under
    /// those answers.
    pub fn running(&self, entries: &Vec<(String, Option<Project>)>) -> (r: (
        Vec<RunningProject>,
        Vec<String>,
        Vec<bool>,
    ))
        ensures
            r.2@.len() == entries@.len(),
            runnings_eq(r.0@, spec_reconcile(entries@, r.2@).0),
            r.1@ == spec_reconcile(entries@, r.2@).1,
    {
        let mut kept: Vec<RunningProject> = Vec::new();
        let mut stale: Vec<String> = Vec::new();
        let mut alive: Vec<bool> = Vec::new();
        let mut i: usize = 0;
        while i < entries.len()
            invariant
                i <= entries.len(),
                alive@.len() == i,
                runnings_eq(kept@, spec_reconcile(entries@.subrange(0, i as int), alive@).0),
                stale@ == spec_reconcile(entries@.subrange(0, i as int), alive@).1,
            decreases entries.len() - i,
        {
            let ghost prefix_old = entries@.subrange(0, i as int);
            let ghost prefix_new = entries@.subrange(0, i as int + 1);
            let ghost alive_old = alive@;
            proof {
                assert(prefix_new.drop_last() =~= prefix_old);
                assert(prefix_new.last() == entries@[i as int]);
            }
            let pair = &entries[i];
            match crate::state::parse_entry(pair.0.as_str()) {
                None => {
                    alive.push(false);
                    proof {
                        assert(alive@.drop_last() =~= alive_old);
                    }
                },
                Some((_name, pid)) => {
                    let is_alive = has_processes_running(pid);
                    alive.push(is_alive);
                    proof {
                        assert(alive@.drop_last() =~= alive_old);
                        assert(alive@.last() == is_alive);
                    }
                    if is_alive {
                        match &pair.1 {
                            None => {
                                proof {
                                    assert(spec_entry_record(entries@[i as int]) is None);
                                }
                            },
                            Some(snap) => {
                                let ghost old_kept = kept@;
                                match RunningProject::from_entry(pair.0.as_str(), snap) {
                                    None => {},
                                    Some(record) => {
                                        kept.push(record);
                                        proof {
                                            lemma_runnings_eq_push(
                                                old_kept,
                                                spec_reconcile(prefix_old, alive_old).0,
                                                kept@.last(),
                                                spec_entry_record(entries@[i as int]).unwrap(),
                                            );
                                        }
                                    },
                                }
                            },
                        }
                    } else {
                        stale.push(pair.0.clone());
                    }
                },
            }
            i = i + 1;
        }
        proof {
            assert(entries@.subrange(0, i as int) =~= entries@);
        }
        (kept, stale, alive)
    }
}

} // verus!
