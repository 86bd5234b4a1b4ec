//! Lifecycle decisions: what each batch operation does with the requested
//! projects, given the reconciled running set.
//!
//! The operating-system work — forking, polling the clock, reading the
//! state directory — happens at the edge; everything here computes from
//! plain values: which projects to daemonize or signal, which notices to
//! report, and how a command line splits into a program and arguments.

use vstd::prelude::*;

use crate::config::{
    project_eq, projects_eq, runnings_eq, Project, RunningProject, WorkerProject,
};
use crate::error::WorkerError;
use crate::worker::{spec_contains_name, spec_partition, WorkerConfig};

verus! {

/// What shlex's word splitting yields on a command line: a function of the
/// text alone.
pub uninterp spec fn shlex_tokens(s: Seq<char>) -> Option<Seq<Seq<char>>>;

/// Relies on shlex::split: POSIX-shell-like word splitting of a command
/// line. The result depends on the text alone; erroneous input (an
/// unclosed quote, a dangling backslash) yields nothing.
#[verifier::external_body]
fn split_command(s: &str) -> (r: Option<Vec<String>>)
    ensures
        r.deep_view() == shlex_tokens(s@),
{
    shlex::split(s)
}

/// Split a project's command line into the program to load and its
/// argument list: the first token and the remaining ones. Rejected when
/// the command cannot be tokenized or holds no token at all.
pub fn command_parts(command: &str) -> (r: Result<(String, Vec<String>), WorkerError>)
    ensures
        match shlex_tokens(command@) {
            Some(toks) => {
                if toks.len() == 0 {
                    r matches Err(WorkerError::BadCommand { command: c }) && c@ == command@
                } else {
                    r matches Ok((prog, args)) && prog@ == toks[0] && args.deep_view()
                        == toks.drop_first()
                }
            },
            None => r matches Err(WorkerError::BadCommand { command: c }) && c@ == command@,
        },
{
    match split_command(command) {
        None => Err(WorkerError::BadCommand { command: command.to_owned() }),
        Some(parts) => {
            if parts.len() == 0 {
                return Err(WorkerError::BadCommand { command: command.to_owned() });
            }
            let ghost toks = shlex_tokens(command@).unwrap();
            let prog = parts[0].clone();
            let mut args: Vec<String> = Vec::new();
            let mut i: usize = 1;
            while i < parts.len()
                invariant
                    1 <= i <= parts@.len(),
                    args@ =~= parts@.subrange(1, i as int),
                decreases parts@.len() - i,
            {
                args.push(parts[i].clone());
                i = i + 1;
            }
            proof {
                assert(args@ =~= parts@.subrange(1, parts@.len() as int));
                assert(parts.deep_view()[0] == parts@[0]@);
                assert forall|j: int| 0 <= j < args@.len() implies #[trigger] args.deep_view()[j]
                    == toks.drop_first()[j] by {
                    assert(args@[j] == parts@[j + 1]);
                    assert(parts.deep_view()[j + 1] == parts@[j + 1]@);
                }
                assert(args.deep_view() =~= toks.drop_first());
            }
            Ok((prog, args))
        },
    }
}

/// The notice for a project that is already running.
pub open spec fn spec_already_running_notice(p: RunningProject) -> Seq<char> {
    p.spec_display() + " is already running"@
}

/// The notices, one per record, for projects that were asked to start but
/// are already running.
pub open spec fn spec_already_running_notices(running: Seq<RunningProject>) -> Seq<Seq<char>> {
    Seq::new(running.len(), |i: int| spec_already_running_notice(running[i]))
}

/// The notice for a project that was asked to stop but is not running.
pub open spec fn spec_stop_notice(p: Project) -> Seq<char> {
    "Cannot stop project not running: "@ + p.spec_display()
}

/// The notices for projects that were asked to stop but are not running.
pub open spec fn spec_stop_notices(not_running: Seq<Project>) -> Seq<Seq<char>> {
    Seq::new(not_running.len(), |i: int| spec_stop_notice(not_running[i]))
}

/// The notice for a project that was asked to restart but is not running.
pub open spec fn spec_restart_notice(p: Project) -> Seq<char> {
    "Cannot restart project not running: "@ + p.spec_display()
}

/// The notices for projects that were asked to restart but are not
/// running.
pub open spec fn spec_restart_notices(not_running: Seq<Project>) -> Seq<Seq<char>> {
    Seq::new(not_running.len(), |i: int| spec_restart_notice(not_running[i]))
}

/// The notice for a project that did not stop within the timeout.
pub open spec fn spec_timeout_notice(p: RunningProject) -> Seq<char> {
    "Was not able to stop "@ + p.spec_display()
}

/// The notices for projects still alive when the stop timeout elapsed.
pub open spec fn spec_timeout_notices(still: Seq<RunningProject>) -> Seq<Seq<char>> {
    Seq::new(still.len(), |i: int| spec_timeout_notice(still[i]))
}

/// Render the notices for already-running projects.
pub fn already_running_notices(running: &Vec<RunningProject>) -> (r: Vec<String>)
    ensures
        r.deep_view() == spec_already_running_notices(running@),
{
    let mut out: Vec<String> = Vec::new();
    let mut i: usize = 0;
    while i < running.len()
        invariant
            i <= running@.len(),
            out@.len() == i,
            forall|j: int| 0 <= j < i ==> #[trigger] out@[j]@ == spec_already_running_notice(
                running@[j],
            ),
        decreases running@.len() - i,
    {
        let mut line = running[i].display_string();
        line.append(" is already running");
        out.push(line);
        i = i + 1;
    }
    proof {
        assert(out.deep_view() =~= spec_already_running_notices(running@));
    }
    out
}

/// Render the notices for projects that cannot be stopped because they are
/// not running.
pub fn stop_notices(not_running: &Vec<Project>) -> (r: Vec<String>)
    ensures
        r.deep_view() == spec_stop_notices(not_running@),
{
    let mut out: Vec<String> = Vec::new();
    let mut i: usize = 0;
    while i < not_running.len()
        invariant
            i <= not_running@.len(),
            out@.len() == i,
            forall|j: int| 0 <= j < i ==> #[trigger] out@[j]@ == spec_stop_notice(not_running@[j]),
        decreases not_running@.len() - i,
    {
        let mut line: String = "Cannot stop project not running: ".to_owned();
        line.append(not_running[i].display_string().as_str());
        out.push(line);
        i = i + 1;
    }
    proof {
        assert(out.deep_view() =~= spec_stop_notices(not_running@));
    }
    out
}

/// Render the notices for projects that cannot be restarted because they
/// are not running.
pub fn restart_notices(not_running: &Vec<Project>) -> (r: Vec<String>)
    ensures
        r.deep_view() == spec_restart_notices(not_running@),
{
    let mut out: Vec<String> = Vec::new();
    let mut i: usize = 0;
    while i < not_running.len()
        invariant
            i <= not_running@.len(),
            out@.len() == i,
            forall|j: int| 0 <= j < i ==> #[trigger] out@[j]@ == spec_restart_notice(
                not_running@[j],
            ),
        decreases not_running@.len() - i,
    {
        let mut line: String = "Cannot restart project not running: ".to_owned();
        line.append(not_running[i].display_string().as_str());
        out.push(line);
        i = i + 1;
    }
    proof {
        assert(out.deep_view() =~= spec_restart_notices(not_running@));
    }
    out
}

/// Render the notices for projects still alive when the stop timeout
/// elapsed.
pub fn timeout_notices(still: &Vec<RunningProject>) -> (r: Vec<String>)
    ensures
        r.deep_view() == spec_timeout_notices(still@),
{
    let mut out: Vec<String> = Vec::new();
    let mut i: usize = 0;
    while i < still.len()
        invariant
            i <= still@.len(),
            out@.len() == i,
            forall|j: int| 0 <= j < i ==> #[trigger] out@[j]@ == spec_timeout_notice(still@[j]),
        decreases still@.len() - i,
    {
        let mut line: String = "Was not able to stop ".to_owned();
        line.append(still[i].display_string().as_str());
        out.push(line);
        i = i + 1;
    }
    proof {
        assert(out.deep_view() =~= spec_timeout_notices(still@));
    }
    out
}

/// The status report: one line per running record, the bare name when
/// `quiet` is set, the display form with "is running" otherwise.
pub open spec fn spec_status_lines(running: Seq<RunningProject>, quiet: bool) -> Seq<Seq<char>> {
    Seq::new(
        running.len(),
        |i: int|
            if quiet {
                running[i].name@
            } else {
                running[i].spec_display() + " is running"@
            },
    )
}

/// Render the status report for the reconciled running records.
pub fn status(running: &Vec<RunningProject>, quiet: bool) -> (r: Vec<String>)
    ensures
        r.deep_view() == spec_status_lines(running@, quiet),
{
    let mut out: Vec<String> = Vec::new();
    let mut i: usize = 0;
    while i < running.len()
        invariant
            i <= running@.len(),
            out@.len() == i,
            forall|j: int| 0 <= j < i ==> #[trigger] out@[j]@ == spec_status_lines(
                running@,
                quiet,
            )[j],
        decreases running@.len() - i,
    {
        if quiet {
            out.push(running[i].name.clone());
        } else {
            let mut line = running[i].display_string();
            line.append(" is running");
            out.push(line);
        }
        i = i + 1;
    }
    proof {
        assert(out.deep_view() =~= spec_status_lines(running@, quiet));
    }
    out
}

/// The catalog listing: one line per project, regardless of run state; the
/// bare name when `quiet` is set, the display form otherwise.
pub open spec fn spec_list_lines(projects: Seq<Project>, quiet: bool) -> Seq<Seq<char>> {
    Seq::new(
        projects.len(),
        |i: int|
            if quiet {
                projects[i].name@
            } else {
                projects[i].spec_display()
            },
    )
}

/// Render the catalog listing.
pub fn list(projects: &Vec<Project>, quiet: bool) -> (r: Vec<String>)
    ensures
        r.deep_view() == spec_list_lines(projects@, quiet),
{
    let mut out: Vec<String> = Vec::new();
    let mut i: usize = 0;
    while i < projects.len()
        invariant
            i <= projects@.len(),
            out@.len() == i,
            forall|j: int| 0 <= j < i ==> #[trigger] out@[j]@ == spec_list_lines(
                projects@,
                quiet,
            )[j],
        decreases projects@.len() - i,
    {
        if quiet {
            out.push(projects[i].name.clone());
        } else {
            out.push(projects[i].display_string());
        }
        i = i + 1;
    }
    proof {
        assert(out.deep_view() =~= spec_list_lines(projects@, quiet));
    }
    out
}

/// Whether some project in the list carries the given name.
pub open spec fn spec_projects_contain_name(projects: Seq<Project>, name: Seq<char>) -> bool {
    exists|i: int| 0 <= i < projects.len() && #[trigger] projects[i].name@ == name
}

/// A request list with later duplicates removed: the first project under
/// each name stays, in request order.
pub open spec fn spec_dedup(reqs: Seq<Project>) -> Seq<Project>
    decreases reqs.len(),
{
    if reqs.len() == 0 {
        Seq::<Project>::empty()
    } else {
        let rest = spec_dedup(reqs.drop_last());
        if spec_projects_contain_name(reqs.drop_last(), reqs.last().name@) {
            rest
        } else {
            rest.push(reqs.last())
        }
    }
}

/// Drop every request whose name already occurred earlier in the list:
/// batch operations process each project once, in the order first
/// supplied.
pub fn dedup_requests(reqs: Vec<Project>) -> (r: Vec<Project>)
    ensures
        projects_eq(r@, spec_dedup(reqs@)),
{
    let mut out: Vec<Project> = Vec::new();
    let mut i: usize = 0;
    while i < reqs.len()
        invariant
            i <= reqs@.len(),
            projects_eq(out@, spec_dedup(reqs@.subrange(0, i as int))),
        decreases reqs@.len() - i,
    {
        let ghost prefix_old = reqs@.subrange(0, i as int);
        let ghost prefix_new = reqs@.subrange(0, i as int + 1);
        proof {
            assert(prefix_new.drop_last() =~= prefix_old);
            assert(prefix_new.last() == reqs@[i as int]);
        }
        let mut dup = false;
        let mut k: usize = 0;
        while k < i
            invariant
                k <= i,
                i < reqs@.len(),
                dup ==> spec_projects_contain_name(
                    reqs@.subrange(0, i as int),
                    reqs@[i as int].name@,
                ),
                !dup ==> forall|t: int|
                    0 <= t < k ==> #[trigger] reqs@[t].name@ != reqs@[i as int].name@,
            decreases i - k,
        {
            if crate::config::str_eq(reqs[k].name.as_str(), reqs[i].name.as_str()) {
                proof {
                    assert(reqs@.subrange(0, i as int)[k as int].name@ == reqs@[i as int].name@);
                }
                dup = true;
            }
            k = k + 1;
        }
        if !dup {
            proof {
                assert(!spec_projects_contain_name(prefix_old, reqs@[i as int].name@)) by {
                    if spec_projects_contain_name(prefix_old, reqs@[i as int].name@) {
                        let w = choose|w: int|
                            0 <= w < prefix_old.len() && #[trigger] prefix_old[w].name@
                                == reqs@[i as int].name@;
                        assert(reqs@[w].name@ == reqs@[i as int].name@);
                    }
                }
            }
            let ghost old_out = out@;
            out.push(reqs[i].clone());
            proof {
                assert forall|j: int| 0 <= j < out@.len() implies project_eq(
                    #[trigger] out@[j],
                    spec_dedup(prefix_new)[j],
                ) by {
                    if j < old_out.len() {
                        assert(project_eq(old_out[j], spec_dedup(prefix_old)[j]));
                        assert(out@[j] == old_out[j]);
                    }
                }
            }
        } else {
            proof {
                assert(spec_dedup(prefix_new) == spec_dedup(prefix_old));
            }
        }
        i = i + 1;
    }
    proof {
        assert(reqs@.subrange(0, i as int) =~= reqs@);
    }
    out
}

/// The requested definitions, seen as plain project values.
pub open spec fn spec_as_projects(reqs: Seq<Project>) -> Seq<Project> {
    reqs.map_values(|p: Project| p.as_project())
}

/// The decision part of `start`: split the request against the running
/// set; the projects already running each get a notice and the rest are to
/// be daemonized, in request order.
pub fn start(config: &WorkerConfig, projects: Vec<Project>, running: &Vec<RunningProject>) -> (r: (
    Vec<String>,
    Vec<Project>,
))
    ensures
        r.0.deep_view() == spec_already_running_notices(
            spec_partition(projects@, running@).0,
        ),
        projects_eq(r.1@, spec_partition(projects@, running@).1),
{
    proof {
        assert(spec_as_projects(projects@) =~= projects@);
    }
    let (already, to_start) = config.partition_projects(projects, running);
    let notices = already_running_notices(&already);
    proof {
        assert forall|j: int|
            0 <= j < notices.deep_view().len() implies #[trigger] notices.deep_view()[j]
            == spec_already_running_notices(spec_partition(projects@, running@).0)[j] by {
            assert(notices.deep_view()[j] == spec_already_running_notice(already@[j]));
        }
        assert(notices.deep_view() =~= spec_already_running_notices(
            spec_partition(projects@, running@).0,
        ));
    }
    (notices, to_start)
}

/// The text reporting one failed delivery: the project's display form
/// with the operating system's error number attached.
pub open spec fn spec_stop_failure_notice(p: RunningProject, errno: i32) -> Seq<char> {
    "Error trying to stop "@ + p.spec_display() + ": error "@ + crate::decimal::int_rep(
        errno as int,
    )
}

/// The failure notices of a stop batch: one per target whose delivery
/// came back with an error number, in target order.
pub open spec fn spec_stop_failures(
    targets: Seq<RunningProject>,
    outcomes: Seq<Option<i32>>,
) -> Seq<Seq<char>>
    decreases targets.len(),
{
    if targets.len() == 0 {
        Seq::<Seq<char>>::empty()
    } else {
        let rest = spec_stop_failures(targets.drop_last(), outcomes.drop_last());
        match if outcomes.len() >= 1 {
            outcomes.last()
        } else {
            None
        } {
            Some(errno) => rest.push(spec_stop_failure_notice(targets.last(), errno)),
            None => rest,
        }
    }
}

/// The signalling part of `stop`: split the request against the running
/// set, send each running record its stop signal, and hand back the
/// signalled records, the notices for those not running, and one
/// delivery outcome per target — the error number where the operating
/// system refused, nothing where it accepted. One refusal never prevents
/// signalling the remaining targets, and the batch itself cannot fail.
pub fn stop(config: &WorkerConfig, projects: Vec<Project>, running: &Vec<RunningProject>) -> (r: (
    Vec<RunningProject>,
    Vec<String>,
    Vec<Option<i32>>,
))
    ensures
        runnings_eq(r.0@, spec_partition(projects@, running@).0),
        r.1.deep_view() == spec_stop_notices(spec_partition(projects@, running@).1),
        r.2@.len() == r.0@.len(),
{
    proof {
        assert(spec_as_projects(projects@) =~= projects@);
    }
    let (targets, not_running) = config.partition_projects(projects, running);
    let mut outcomes: Vec<Option<i32>> = Vec::new();
    let mut i: usize = 0;
    while i < targets.len()
        invariant
            i <= targets@.len(),
            outcomes@.len() == i,
        decreases targets@.len() - i,
    {
        match targets[i].stop() {
            Ok(()) => {
                outcomes.push(None);
            },
            Err(e) => {
                let errno = match e {
                    WorkerError::SignalFailed { errno } => errno,
                    _ => {
                        proof {
                            // stop reports no error but SignalFailed.
                            assert(false);
                        }
                        0
                    },
                };
                outcomes.push(Some(errno));
            },
        }
        i = i + 1;
    }
    let notices = stop_notices(&not_running);
    proof {
        let spec_right = spec_partition(projects@, running@).1;
        assert forall|j: int| 0 <= j < notices.deep_view().len() implies #[trigger] notices.deep_view()[j]
            == spec_stop_notices(spec_right)[j] by {
            assert(notices.deep_view()[j] == spec_stop_notice(not_running@[j]));
            assert(project_eq(not_running@[j], spec_right[j]));
        }
        assert(notices.deep_view() =~= spec_stop_notices(spec_right));
    }
    (targets, notices, outcomes)
}

/// Render the failure notices of a stop batch from the targets and the
/// delivery outcomes that came back for them.
pub fn stop_failure_notices(targets: &Vec<RunningProject>, outcomes: &Vec<Option<i32>>) -> (r:
    Vec<String>)
    requires
        outcomes@.len() == targets@.len(),
    ensures
        r.deep_view() == spec_stop_failures(targets@, outcomes@),
{
    let mut out: Vec<String> = Vec::new();
    let mut i: usize = 0;
    while i < targets.len()
        invariant
            i <= targets@.len(),
            outcomes@.len() == targets@.len(),
            out.deep_view() == spec_stop_failures(
                targets@.subrange(0, i as int),
                outcomes@.subrange(0, i as int),
            ),
        decreases targets@.len() - i,
    {
        let ghost t_old = targets@.subrange(0, i as int);
        let ghost t_new = targets@.subrange(0, i as int + 1);
        let ghost o_old = outcomes@.subrange(0, i as int);
        let ghost o_new = outcomes@.subrange(0, i as int + 1);
        proof {
            assert(t_new.drop_last() =~= t_old);
            assert(o_new.drop_last() =~= o_old);
            assert(t_new.last() == targets@[i as int]);
            assert(o_new.last() == outcomes@[i as int]);
        }
        match outcomes[i] {
            None => {},
            Some(errno) => {
                let ghost old_out = out.deep_view();
                let mut line: String = "Error trying to stop ".to_owned();
                line.append(targets[i].display_string().as_str());
                line.append(": error ");
                line.append(crate::decimal::i32_to_decimal(errno).as_str());
                out.push(line);
                proof {
                    assert(out.deep_view() =~= old_out.push(
                        spec_stop_failure_notice(targets@[i as int], errno),
                    ));
                }
            },
        }
        i = i + 1;
    }
    proof {
        assert(targets@.subrange(0, i as int) =~= targets@);
        assert(outcomes@.subrange(0, i as int) =~= outcomes@);
    }
    out
}

/// The decision part of `restart`: only the running subset is restarted;
/// the rest get a notice and are dropped. The result lists the definitions
/// to stop and start again, in request order.
pub fn restart(config: &WorkerConfig, projects: Vec<Project>, running: &Vec<RunningProject>) -> (r:
    (Vec<Project>, Vec<String>))
    ensures
        projects_eq(
            r.0@,
            spec_partition(projects@, running@).0.map_values(|rp: RunningProject| rp.as_project()),
        ),
        r.1.deep_view() == spec_restart_notices(spec_partition(projects@, running@).1),
{
    proof {
        assert(spec_as_projects(projects@) =~= projects@);
    }
    let (to_restart, filtered) = config.partition_projects(projects, running);
    let mut as_projects: Vec<Project> = Vec::new();
    let mut i: usize = 0;
    while i < to_restart.len()
        invariant
            i <= to_restart@.len(),
            as_projects@.len() == i,
            forall|j: int| 0 <= j < i ==> project_eq(
                #[trigger] as_projects@[j],
                to_restart@[j].as_project(),
            ),
        decreases to_restart@.len() - i,
    {
        as_projects.push(to_restart[i].to_project());
        i = i + 1;
    }
    let notices = restart_notices(&filtered);
    proof {
        let spec_left = spec_partition(projects@, running@).0.map_values(
            |rp: RunningProject| rp.as_project(),
        );
        assert forall|j: int| 0 <= j < as_projects@.len() implies project_eq(
            #[trigger] as_projects@[j],
            spec_left[j],
        ) by {
            assert(project_eq(as_projects@[j], to_restart@[j].as_project()));
        }
        let spec_right = spec_partition(projects@, running@).1;
        assert forall|j: int| 0 <= j < notices.deep_view().len() implies #[trigger] notices.deep_view()[j]
            == spec_restart_notices(spec_right)[j] by {
            assert(notices.deep_view()[j] == spec_restart_notice(filtered@[j]));
            assert(project_eq(filtered@[j], spec_right[j]));
        }
        assert(notices.deep_view() =~= spec_restart_notices(spec_right));
    }
    (as_projects, notices)
}

/// The precondition check of `logs`: the path of the project's log file
/// when the project is running, and the "not running" condition otherwise,
/// if and only if.
pub fn logs(config: &WorkerConfig, project: &Project, running: &Vec<RunningProject>) -> (r: Result<
    String,
    WorkerError,
>)
    ensures
        spec_contains_name(running@, project.name@) ==> (r matches Ok(path) && path@
            == config.spec_log_dir() + "/"@ + project.name@),
        !spec_contains_name(running@, project.name@) ==> (r matches Err(
            WorkerError::NotRunning { display: d },
        ) && d@ == project.spec_display()),
{
    if config.is_running(project, running) {
        Ok(config.log_file(project))
    } else {
        Err(WorkerError::NotRunning { display: project.display_string() })
    }
}

} // verus!
