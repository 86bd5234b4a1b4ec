//! The project catalog: static definitions read from the configuration
//! edge, and the running records that pair a definition with a live
//! session id.

use vstd::prelude::*;

use crate::error::WorkerError;
use crate::sys::Signal;

verus! {

/// The catalog handed in by the configuration edge: an ordered list of
/// project definitions with unique names.
pub struct Config {
    pub project: Vec<Project>,
}

/// A project definition: a named long-running command.
#[derive(Debug)]
pub struct Project {
    pub name: String,
    pub command: String,
    pub cwd: String,
    pub display: Option<String>,
    pub stop_signal: Option<Signal>,
    /// Environment overrides, merged over the supervisor's own
    /// environment. Invariant: the variable names are unique; the
    /// configuration edge builds this list from a map, so duplicates
    /// never arise there.
    pub envs: Option<Vec<(String, String)>>,
}

/// A project definition together with the session id of its live process:
/// the in-memory form of one state-store entry. The definition fields are a
/// snapshot taken at start time, so stopping keeps working even when the
/// catalog has changed since.
#[derive(Debug)]
pub struct RunningProject {
    pub name: String,
    pub command: String,
    pub cwd: String,
    pub display: Option<String>,
    pub stop_signal: Option<Signal>,
    /// Environment overrides; the variable names are unique, as in
    /// [`Project::envs`].
    pub envs: Option<Vec<(String, String)>>,
    pub pid: i32,
}

/// Two project definitions carry the same text in every field.
pub open spec fn project_eq(a: Project, b: Project) -> bool {
    &&& a.name@ == b.name@
    &&& a.command@ == b.command@
    &&& a.cwd@ == b.cwd@
    &&& a.display.deep_view() == b.display.deep_view()
    &&& a.stop_signal == b.stop_signal
    &&& a.envs.deep_view() == b.envs.deep_view()
}

/// Two running records carry the same text in every field and the same
/// session id.
pub open spec fn running_eq(a: RunningProject, b: RunningProject) -> bool {
    &&& a.name@ == b.name@
    &&& a.command@ == b.command@
    &&& a.cwd@ == b.cwd@
    &&& a.display.deep_view() == b.display.deep_view()
    &&& a.stop_signal == b.stop_signal
    &&& a.envs.deep_view() == b.envs.deep_view()
    &&& a.pid == b.pid
}

/// Elementwise [`project_eq`] over two sequences.
pub open spec fn projects_eq(a: Seq<Project>, b: Seq<Project>) -> bool {
    a.len() == b.len() && forall|i: int| 0 <= i < a.len() ==> project_eq(#[trigger] a[i], b[i])
}

/// Elementwise [`running_eq`] over two sequences.
pub open spec fn runnings_eq(a: Seq<RunningProject>, b: Seq<RunningProject>) -> bool {
    a.len() == b.len() && forall|i: int| 0 <= i < a.len() ==> running_eq(#[trigger] a[i], b[i])
}

/// Whether two pieces of text are equal, character for character.
pub fn str_eq(a: &str, b: &str) -> (r: bool)
    ensures
        r == (a@ == b@),
{
    let owned_a: String = a.to_owned();
    let owned_b: String = b.to_owned();
    owned_a == owned_b
}

/// Copy a list of environment overrides.
fn clone_envs(v: &Vec<(String, String)>) -> (r: Vec<(String, String)>)
    ensures
        r.deep_view() == v.deep_view(),
{
    let mut out: Vec<(String, String)> = Vec::new();
    let mut i: usize = 0;
    while i < v.len()
        invariant
            i <= v.len(),
            out@.len() == i,
            forall|j: int| 0 <= j < i ==> #[trigger] out.deep_view()[j] == v.deep_view()[j],
        decreases v.len() - i,
    {
        let pair = &v[i];
        let key = pair.0.clone();
        let val = pair.1.clone();
        let ghost kv = (key@, val@);
        proof {
            assert(kv == v@[i as int].deep_view());
        }
        let ghost prev = out;
        out.push((key, val));
        i = i + 1;
        proof {
            assert(out.deep_view()[i - 1] == kv);
            assert(v.deep_view()[i - 1] == v@[i - 1].deep_view());
            assert forall|j: int| 0 <= j < i - 1 implies #[trigger] out.deep_view()[j]
                == v.deep_view()[j] by {
                assert(out@[j] == prev@[j]);
                assert(out.deep_view()[j] == out@[j].deep_view());
                assert(prev.deep_view()[j] == prev@[j].deep_view());
                assert(prev.deep_view()[j] == v.deep_view()[j]);
            }
        }
    }
    proof {
        assert(out.deep_view() =~= v.deep_view());
    }
    out
}

/// Copy an optional list of environment overrides.
pub(crate) fn clone_envs_opt(v: &Option<Vec<(String, String)>>) -> (r: Option<Vec<(String, String)>>)
    ensures
        r.deep_view() == v.deep_view(),
{
    match v {
        Some(e) => Some(clone_envs(e)),
        None => None,
    }
}

/// Copy an optional piece of text.
pub(crate) fn clone_display(v: &Option<String>) -> (r: Option<String>)
    ensures
        r.deep_view() == v.deep_view(),
{
    match v {
        Some(d) => Some(d.clone()),
        None => None,
    }
}

impl Clone for Project {
    fn clone(&self) -> (r: Self)
        ensures
            project_eq(r, *self),
    {
        Project {
            name: self.name.clone(),
            command: self.command.clone(),
            cwd: self.cwd.clone(),
            display: clone_display(&self.display),
            stop_signal: self.stop_signal,
            envs: clone_envs_opt(&self.envs),
        }
    }
}

impl Clone for RunningProject {
    fn clone(&self) -> (r: Self)
        ensures
            running_eq(r, *self),
    {
        RunningProject {
            name: self.name.clone(),
            command: self.command.clone(),
            cwd: self.cwd.clone(),
            display: clone_display(&self.display),
            stop_signal: self.stop_signal,
            envs: clone_envs_opt(&self.envs),
            pid: self.pid,
        }
    }
}

/// Anything that names a project and can stand for its definition.
pub trait WorkerProject: Sized {
    /// The project definition this value stands for.
    spec fn as_project(&self) -> Project;

    /// The project's name.
    fn name(&self) -> (r: &str)
        ensures
            r@ == self.as_project().name@,
    ;

    /// The project definition, as a value of its own.
    fn to_project(&self) -> (p: Project)
        ensures
            project_eq(p, self.as_project()),
    ;
}

impl WorkerProject for Project {
    open spec fn as_project(&self) -> Project {
        *self
    }

    fn name(&self) -> (r: &str) {
        self.name.as_str()
    }

    fn to_project(&self) -> (p: Project) {
        self.clone()
    }
}

impl WorkerProject for RunningProject {
    open spec fn as_project(&self) -> Project {
        Project {
            name: self.name,
            command: self.command,
            cwd: self.cwd,
            display: self.display,
            stop_signal: self.stop_signal,
            envs: self.envs,
        }
    }

    fn name(&self) -> (r: &str) {
        self.name.as_str()
    }

    fn to_project(&self) -> (p: Project) {
        Project {
            name: self.name.clone(),
            command: self.command.clone(),
            cwd: self.cwd.clone(),
            display: clone_display(&self.display),
            stop_signal: self.stop_signal,
            envs: clone_envs_opt(&self.envs),
        }
    }
}

impl Project {
    /// The human-facing form of the project: the display name with the
    /// project name in parentheses when a display name is set, the project
    /// name alone otherwise.
    pub open spec fn spec_display(&self) -> Seq<char> {
        match self.display {
            Some(d) => d@ + " ("@ + self.name@ + ")"@,
            None => self.name@,
        }
    }

    /// Render the human-facing form of the project.
    pub fn display_string(&self) -> (r: String)
        ensures
            r@ == self.spec_display(),
    {
        match &self.display {
            Some(d) => {
                let mut s = d.clone();
                s.append(" (");
                s.append(self.name.as_str());
                s.append(")");
                proof {
                    assert(s@ =~= self.spec_display());
                }
                s
            },
            None => self.name.clone(),
        }
    }
}

impl RunningProject {
    /// The human-facing form of the running project, as for [`Project`].
    pub open spec fn spec_display(&self) -> Seq<char> {
        match self.display {
            Some(d) => d@ + " ("@ + self.name@ + ")"@,
            None => self.name@,
        }
    }

    /// Render the human-facing form of the running project.
    pub fn display_string(&self) -> (r: String)
        ensures
            r@ == self.spec_display(),
    {
        match &self.display {
            Some(d) => {
                let mut s = d.clone();
                s.append(" (");
                s.append(self.name.as_str());
                s.append(")");
                proof {
                    assert(s@ =~= self.spec_display());
                }
                s
            },
            None => self.name.clone(),
        }
    }
}

/// The first project in the catalog carrying the given name, if any.
pub open spec fn spec_find_project(projects: Seq<Project>, name: Seq<char>) -> Option<Project>
    decreases projects.len(),
{
    if projects.len() == 0 {
        None
    } else if projects[0].name@ == name {
        Some(projects[0])
    } else {
        spec_find_project(projects.drop_first(), name)
    }
}

/// When the first `i` projects do not carry the name and the `i`-th does,
/// the `i`-th is the one found.
proof fn lemma_find_project_at(projects: Seq<Project>, name: Seq<char>, i: int)
    requires
        0 <= i < projects.len(),
        projects[i].name@ == name,
        forall|k: int| 0 <= k < i ==> #[trigger] projects[k].name@ != name,
    ensures
        spec_find_project(projects, name) == Some(projects[i]),
    decreases i,
{
    if i > 0 {
        lemma_find_project_at(projects.drop_first(), name, i - 1);
    }
}

/// When no project carries the name, none is found.
proof fn lemma_find_project_none(projects: Seq<Project>, name: Seq<char>)
    requires
        forall|k: int| 0 <= k < projects.len() ==> #[trigger] projects[k].name@ != name,
    ensures
        spec_find_project(projects, name) is None,
    decreases projects.len(),
{
    if projects.len() > 0 {
        lemma_find_project_none(projects.drop_first(), name);
    }
}

/// Look a name up in the catalog: a copy of the first definition carrying
/// it, or the usage error for an unknown name.
pub fn find_project(name: &str, projects: &Vec<Project>) -> (r: Result<Project, WorkerError>)
    ensures
        match spec_find_project(projects@, name@) {
            Some(p) => r matches Ok(q) && project_eq(q, p),
            None => r matches Err(WorkerError::UnknownProject { name: n }) && n@ == name@,
        },
{
    let mut i: usize = 0;
    while i < projects.len()
        invariant
            i <= projects.len(),
            forall|k: int| 0 <= k < i ==> #[trigger] projects@[k].name@ != name@,
        decreases projects.len() - i,
    {
        if str_eq(projects[i].name.as_str(), name) {
            proof {
                lemma_find_project_at(projects@, name@, i as int);
            }
            return Ok(projects[i].clone());
        }
        i = i + 1;
    }
    proof {
        lemma_find_project_none(projects@, name@);
    }
    Err(WorkerError::UnknownProject { name: name.to_owned() })
}

} // verus!
