//! The state-store key codec.
//!
//! Each running project is remembered as one file whose name is the
//! composite key `{project_name}-{session_id}`. The last `-`-delimited
//! segment is the session id; everything before it is the project name, so
//! names may themselves contain hyphens. Encoding and decoding are verified
//! inverses for every name and every non-negative session id.

use vstd::prelude::*;

use crate::config::{clone_display, clone_envs_opt, running_eq, str_eq, Project, RunningProject};
use crate::decimal::{
    all_digits, int_rep, is_digit, lemma_dec_rep_val, lemma_parse_int_rep, parse_i32,
    i32_to_decimal, spec_parse_i32,
};

verus! {

/// The composite key of a running record: the project name, a hyphen, the
/// session id in decimal.
pub open spec fn spec_state_file_name(name: Seq<char>, pid: int) -> Seq<char> {
    name + seq!['-'] + int_rep(pid)
}

/// Render the composite key for a project name and session id.
pub fn state_file_name(project_name: &str, pid: i32) -> (r: String)
    ensures
        r@ == spec_state_file_name(project_name@, pid as int),
{
    proof {
        reveal_strlit("-");
    }
    let mut s = project_name.to_owned();
    s.append("-");
    s.append(i32_to_decimal(pid).as_str());
    proof {
        assert("-"@ =~= seq!['-']);
        assert(s@ =~= spec_state_file_name(project_name@, pid as int));
    }
    s
}

/// The position of the last hyphen in `s`, if any.
pub open spec fn spec_last_dash(s: Seq<char>) -> Option<int>
    decreases s.len(),
{
    if s.len() == 0 {
        None
    } else if s.last() == '-' {
        Some(s.len() - 1)
    } else {
        spec_last_dash(s.drop_last())
    }
}

/// When position `j` holds a hyphen and nothing after it does, `j` is the
/// last hyphen.
proof fn lemma_last_dash_at(s: Seq<char>, j: int)
    requires
        0 <= j < s.len(),
        s[j] == '-',
        forall|k: int| j < k < s.len() ==> s[k] != '-',
    ensures
        spec_last_dash(s) == Some(j),
    decreases s.len(),
{
    if j == s.len() - 1 {
    } else {
        assert(s.last() != '-');
        assert(s.drop_last()[j] == '-');
        lemma_last_dash_at(s.drop_last(), j);
    }
}

/// When no position holds a hyphen, there is no last hyphen.
proof fn lemma_last_dash_none(s: Seq<char>)
    requires
        forall|k: int| 0 <= k < s.len() ==> s[k] != '-',
    ensures
        spec_last_dash(s) is None,
    decreases s.len(),
{
    if s.len() > 0 {
        lemma_last_dash_none(s.drop_last());
    }
}

/// Appending digits to a text does not move its last hyphen: a digit is
/// never a hyphen.
proof fn lemma_last_dash_append_digits(x: Seq<char>, d: Seq<char>)
    requires
        all_digits(d),
    ensures
        spec_last_dash(x + d) == spec_last_dash(x),
    decreases d.len(),
{
    if d.len() == 0 {
        assert(x + d =~= x);
    } else {
        let whole = x + d;
        assert(is_digit(d.last()));
        assert(whole.last() == d.last());
        assert(whole.last() != '-');
        assert(whole.drop_last() =~= x + d.drop_last());
        assert(all_digits(d.drop_last()));
        lemma_last_dash_append_digits(x, d.drop_last());
    }
}

/// What decoding a composite key yields: the text before the last hyphen
/// and the decimal value after it, or nothing when there is no hyphen or
/// the tail is not an in-range decimal.
pub open spec fn spec_parse_entry(s: Seq<char>) -> Option<(Seq<char>, int)> {
    match spec_last_dash(s) {
        None => None,
        Some(k) => {
            let name = s.subrange(0, k);
            let tail = s.subrange(k + 1, s.len() as int);
            match spec_parse_i32(tail) {
                None => None,
                Some(v) => Some((name, v)),
            }
        },
    }
}

/// Decode a composite key into a project name and session id.
pub fn parse_entry(s: &str) -> (r: Option<(String, i32)>)
    ensures
        match spec_parse_entry(s@) {
            None => r is None,
            Some((name, pid)) => r matches Some((n, p)) && n@ == name && p as int == pid,
        },
{
    let len = s.unicode_len();
    let mut j = len;
    while j > 0
        invariant
            0 <= j <= len,
            len == s@.len(),
            forall|k: int| j <= k < len ==> s@[k] != '-',
        decreases j,
    {
        let c = s.get_char(j - 1);
        if c == '-' {
            proof {
                lemma_last_dash_at(s@, j - 1);
            }
            let name = s.substring_char(0, j - 1).to_owned();
            let tail = s.substring_char(j, len);
            match parse_i32(tail) {
                None => {
                    return None;
                },
                Some(pid) => {
                    return Some((name, pid));
                },
            }
        }
        j = j - 1;
    }
    proof {
        lemma_last_dash_none(s@);
    }
    None
}

/// Encoding a name and a non-negative session id and decoding the result
/// gives the name and the id back: state-store keys are never ambiguous,
/// whatever hyphens the name itself contains.
pub proof fn lemma_entry_round_trip(name: Seq<char>, pid: int)
    requires
        0 <= pid <= 0x7fff_ffff,
    ensures
        spec_parse_entry(spec_state_file_name(name, pid)) == Some((name, pid)),
{
    let digits = int_rep(pid);
    let stem = name + seq!['-'];
    let whole = spec_state_file_name(name, pid);
    lemma_dec_rep_val(pid);
    assert(whole =~= stem + digits);
    lemma_last_dash_append_digits(stem, digits);
    assert(stem.last() == '-');
    assert(spec_last_dash(stem) == Some(name.len() as int));
    assert(spec_last_dash(whole) == Some(name.len() as int));
    assert(whole.subrange(0, name.len() as int) =~= name);
    assert(whole.subrange(name.len() as int + 1, whole.len() as int) =~= digits);
    lemma_parse_int_rep(pid);
}

/// The record pairing a definition snapshot with a session id.
pub open spec fn spec_record_of(snapshot: Project, pid: int) -> RunningProject {
    RunningProject {
        name: snapshot.name,
        command: snapshot.command,
        cwd: snapshot.cwd,
        display: snapshot.display,
        stop_signal: snapshot.stop_signal,
        envs: snapshot.envs,
        pid: pid as i32,
    }
}

/// The running record a state-store entry stands for, given the snapshot
/// stored as the entry's content: the session id comes from the composite
/// key, every definition field from the snapshot. The snapshot is
/// deliberately denormalized, so the record survives any later edit of
/// the catalog. Nothing when the key does not decode, or when the
/// snapshot names another project than the key does: such an entry is
/// corrupt.
pub open spec fn spec_parse_running(entry: Seq<char>, snapshot: Project) -> Option<
    RunningProject,
> {
    match spec_parse_entry(entry) {
        None => None,
        Some((name, pid)) => if snapshot.name@ == name {
            Some(spec_record_of(snapshot, pid))
        } else {
            None
        },
    }
}

/// A freshly written record is discoverable: the composite key written
/// when a project starts under a session id, read back together with the
/// stored snapshot, decodes to exactly that project's running record —
/// whatever has happened to the catalog since. Together with
/// reconciliation keeping records of live sessions, a started project is
/// reported running for as long as its session lives.
pub proof fn lemma_started_record_discoverable(snapshot: Project, pid: int)
    requires
        0 <= pid <= 0x7fff_ffff,
    ensures
        spec_parse_running(spec_state_file_name(snapshot.name@, pid), snapshot) == Some(
            spec_record_of(snapshot, pid),
        ),
{
    lemma_entry_round_trip(snapshot.name@, pid);
}

impl RunningProject {
    /// Rebuild a running record from a state-store entry name and the
    /// definition snapshot stored as that entry's content. The snapshot,
    /// not the current catalog, supplies the definition fields, so the
    /// record can still be stopped and reported after the catalog has
    /// changed or lost the project.
    pub fn from_entry(entry: &str, snapshot: &Project) -> (r: Option<RunningProject>)
        ensures
            match spec_parse_running(entry@, *snapshot) {
                None => r is None,
                Some(rp) => r matches Some(q) && running_eq(q, rp),
            },
    {
        match parse_entry(entry) {
            None => None,
            Some((name, pid)) => {
                if str_eq(name.as_str(), snapshot.name.as_str()) {
                    Some(
                        RunningProject {
                            name: snapshot.name.clone(),
                            command: snapshot.command.clone(),
                            cwd: snapshot.cwd.clone(),
                            display: clone_display(&snapshot.display),
                            stop_signal: snapshot.stop_signal,
                            envs: clone_envs_opt(&snapshot.envs),
                            pid,
                        },
                    )
                } else {
                    None
                }
            },
        }
    }
}

} // verus!
