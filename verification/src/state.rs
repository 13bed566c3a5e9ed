//! What the daemon records: its pid, the port of each profile, and the
//! sandboxed processes that are running.
use vstd::prelude::*;
use crate::profile::Profile;
use crate::text::push_str;

verus! {

/// The daemon's record.
#[derive(Debug)]
pub struct DaemonState {
    pub pid: u32,
    pub profiles: Vec<ProfilePort>,
    pub processes: Vec<ProcessInfo>,
}

/// A profile and the port its proxy listens on.
#[derive(Debug, Clone)]
pub struct ProfilePort {
    pub name: String,
    pub port: u16,
}

/// A process started in a sandbox.
#[derive(Debug, Clone)]
pub struct ProcessInfo {
    pub pid: u32,
    pub profile: String,
    pub command: String,
    pub started_at: String,
    pub proxy_port: u16,
}

// ---------------------------------------------------------------------
// Specification.
// ---------------------------------------------------------------------

/// The port of the first entry named `name`, if any.
pub open spec fn port_of(ps: Seq<ProfilePort>, name: Seq<char>) -> Option<u16>
    decreases ps.len(),
{
    if ps.len() == 0 {
        None
    } else if ps[0].name@ == name {
        Some(ps[0].port)
    } else {
        port_of(ps.drop_first(), name)
    }
}

/// The processes whose pid is not `pid`, in order.
pub open spec fn without_pid(ps: Seq<ProcessInfo>, pid: u32) -> Seq<ProcessInfo>
    decreases ps.len(),
{
    if ps.len() == 0 {
        ps
    } else if ps.last().pid == pid {
        without_pid(ps.drop_last(), pid)
    } else {
        without_pid(ps.drop_last(), pid).push(ps.last())
    }
}

/// How many of the processes run under the profile `name`.
pub open spec fn count_profile(ps: Seq<ProcessInfo>, name: Seq<char>) -> nat
    decreases ps.len(),
{
    if ps.len() == 0 {
        0
    } else if ps.last().profile@ == name {
        count_profile(ps.drop_last(), name) + 1
    } else {
        count_profile(ps.drop_last(), name)
    }
}

/// The command words joined by single spaces.
pub open spec fn join_words(ws: Seq<Seq<char>>) -> Seq<char>
    decreases ws.len(),
{
    if ws.len() == 0 {
        Seq::empty()
    } else if ws.len() == 1 {
        ws[0]
    } else {
        join_words(ws.drop_last()) + seq![' '] + ws.last()
    }
}

/// The text `profile 'name' not found in daemon state`.
pub open spec fn unknown_profile_text(name: Seq<char>) -> Seq<char> {
    "profile '"@ + name + "' not found in daemon state"@
}

/// The text given when no daemon record exists.
pub open spec fn not_running_text() -> Seq<char> {
    "daemon is not running — start it with: netsand daemon start"@
}

// ---------------------------------------------------------------------
// Implementation.
// ---------------------------------------------------------------------

impl DaemonState {
    /// The record of a freshly started daemon: its pid, each profile's name
    /// and port in order, and no processes.
    pub fn for_profiles(pid: u32, profiles: &[Profile]) -> (r: DaemonState)
        ensures
            r.pid == pid,
            r.processes@.len() == 0,
            r.profiles@.len() == profiles@.len(),
            forall|i: int|
                0 <= i < profiles@.len() ==> (#[trigger] r.profiles@[i]).name@ == profiles@[i].name@
                    && r.profiles@[i].port == profiles@[i].listen_port,
    {
        let mut ps: Vec<ProfilePort> = Vec::new();
        let mut i: usize = 0;
        while i < profiles.len()
            invariant
                i <= profiles@.len(),
                ps@.len() == i,
                forall|k: int|
                    0 <= k < i ==> (#[trigger] ps@[k]).name@ == profiles@[k].name@ && ps@[k].port
                        == profiles@[k].listen_port,
            decreases profiles@.len() - i,
        {
            ps.push(ProfilePort { name: profiles[i].name.clone(), port: profiles[i].listen_port });
            i = i + 1;
        }
        DaemonState { pid, profiles: ps, processes: Vec::new() }
    }

    /// The port of the profile named `profile_name` (its first entry).
    pub fn get_port(&self, profile_name: &str) -> (r: Option<u16>)
        ensures
            r == port_of(self.profiles@, profile_name@),
    {
        let target = String::from_str(profile_name);
        let mut i: usize = 0;
        assert(self.profiles@.subrange(0, self.profiles@.len() as int) == self.profiles@);
        while i < self.profiles.len()
            invariant
                i <= self.profiles@.len(),
                target@ == profile_name@,
                port_of(self.profiles@, profile_name@) == port_of(
                    self.profiles@.subrange(i as int, self.profiles@.len() as int),
                    profile_name@,
                ),
            decreases self.profiles@.len() - i,
        {
            let ghost rest = self.profiles@.subrange(i as int, self.profiles@.len() as int);
            assert(rest[0] == self.profiles@[i as int]);
            assert(rest.drop_first() == self.profiles@.subrange(i + 1, self.profiles@.len() as int));
            if self.profiles[i].name == target {
                return Some(self.profiles[i].port);
            }
            i = i + 1;
        }
        None
    }

    /// Records a process started in a sandbox.
    pub fn register_process(&mut self, info: ProcessInfo)
        ensures
            final(self).pid == old(self).pid,
            final(self).profiles@ == old(self).profiles@,
            final(self).processes@ == old(self).processes@.push(info),
    {
        self.processes.push(info);
    }

    /// Forgets every process with the given pid, keeping the others in order.
    pub fn deregister_process(&mut self, pid: u32)
        ensures
            final(self).pid == old(self).pid,
            final(self).profiles@ == old(self).profiles@,
            final(self).processes@ == without_pid(old(self).processes@, pid),
    {
        let mut kept: Vec<ProcessInfo> = Vec::new();
        let mut old_list: Vec<ProcessInfo> = Vec::new();
        std::mem::swap(&mut old_list, &mut self.processes);
        let ghost all = old_list@;
        let n = old_list.len();
        let mut i: usize = 0;
        while i < n
            invariant
                n == all.len(),
                i <= n,
                old_list@ == all.subrange(i as int, n as int),
                kept@ == without_pid(all.subrange(0, i as int), pid),
            decreases n - i,
        {
            let p = old_list.remove(0);
            assert(p == all[i as int]);
            assert(old_list@ =~= all.subrange(i + 1, n as int));
            assert(all.subrange(0, i + 1).drop_last() == all.subrange(0, i as int));
            if p.pid != pid {
                kept.push(p);
            }
            i = i + 1;
        }
        assert(all.subrange(0, n as int) == all);
        self.processes = kept;
    }

    /// How many recorded processes run under the profile `profile_name`.
    pub fn process_count(&self, profile_name: &str) -> (r: usize)
        ensures
            r == count_profile(self.processes@, profile_name@),
    {
        let target = String::from_str(profile_name);
        let mut c: usize = 0;
        let mut i: usize = 0;
        while i < self.processes.len()
            invariant
                i <= self.processes@.len(),
                target@ == profile_name@,
                c == count_profile(self.processes@.subrange(0, i as int), profile_name@),
                c <= i,
            decreases self.processes@.len() - i,
        {
            assert(self.processes@.subrange(0, i + 1).drop_last() == self.processes@.subrange(
                0,
                i as int,
            ));
            if self.processes[i].profile == target {
                c = c + 1;
            }
            i = i + 1;
        }
        assert(self.processes@.subrange(0, self.processes@.len() as int) == self.processes@);
        c
    }
}

/// The proxy port for running a command under `profile_name`: the daemon
/// must be running (its record present) and must know the profile.
pub fn proxy_port_for(state: &Option<DaemonState>, profile_name: &str) -> (r: Result<u16, String>)
    ensures
        match state {
            None => r is Err && r->Err_0@ == not_running_text(),
            Some(s) => match port_of(s.profiles@, profile_name@) {
                Some(p) => r == Ok::<u16, String>(p),
                None => r is Err && r->Err_0@ == unknown_profile_text(profile_name@),
            },
        },
{
    match state {
        None => Err(String::from_str("daemon is not running — start it with: netsand daemon start")),
        Some(s) => match s.get_port(profile_name) {
            Some(p) => Ok(p),
            None => {
                let mut e = String::from_str("profile '");
                push_str(&mut e, profile_name);
                push_str(&mut e, "' not found in daemon state");
                Err(e)
            },
        },
    }
}

/// The command words joined by single spaces, as recorded for a process.
pub fn join_command(command: &[String]) -> (r: String)
    ensures
        r@ == join_words(command@.map_values(|s: String| s@)),
{
    let ghost ws = command@.map_values(|s: String| s@);
    let mut r = String::new();
    let mut i: usize = 0;
    while i < command.len()
        invariant
            i <= command@.len(),
            ws == command@.map_values(|s: String| s@),
            r@ == join_words(ws.subrange(0, i as int)),
        decreases command@.len() - i,
    {
        assert(ws.subrange(0, i + 1).drop_last() == ws.subrange(0, i as int));
        if i > 0 {
            push_str(&mut r, " ");
            proof {
                reveal_strlit(" ");
            }
        }
        push_str(&mut r, command[i].as_str());
        proof {
            if i == 0 {
                assert(ws.subrange(0, 0) == Seq::<Seq<char>>::empty());
            }
        }
        i = i + 1;
        assert(r@ =~= join_words(ws.subrange(0, i as int)));
    }
    assert(ws.subrange(0, ws.len() as int) == ws);
    r
}

// ---------------------------------------------------------------------
// Laws.
// ---------------------------------------------------------------------

/// A profile's port is found under its name: the first entry that carries
/// the name gives the port.
pub proof fn law_port_of_first_entry(ps: Seq<ProfilePort>, name: Seq<char>, k: int)
    requires
        0 <= k < ps.len(),
        ps[k].name@ == name,
        forall|j: int| 0 <= j < k ==> ps[j].name@ != name,
    ensures
        port_of(ps, name) == Some(ps[k].port),
    decreases k,
{
    if k > 0 {
        let rest = ps.drop_first();
        assert forall|j: int| 0 <= j < k - 1 implies rest[j].name@ != name by {
            assert(rest[j] == ps[j + 1]);
        }
        law_port_of_first_entry(rest, name, k - 1);
    }
}

/// A name that no entry carries has no port.
pub proof fn law_port_of_unknown(ps: Seq<ProfilePort>, name: Seq<char>)
    requires
        forall|j: int| 0 <= j < ps.len() ==> ps[j].name@ != name,
    ensures
        port_of(ps, name) is None,
    decreases ps.len(),
{
    if ps.len() > 0 {
        let rest = ps.drop_first();
        assert forall|j: int| 0 <= j < rest.len() implies rest[j].name@ != name by {
            assert(rest[j] == ps[j + 1]);
        }
        law_port_of_unknown(rest, name);
    }
}

/// Forgetting a pid leaves no process with that pid, and keeps every other
/// process.
pub proof fn law_deregister_exact(ps: Seq<ProcessInfo>, pid: u32)
    ensures
        forall|i: int|
            0 <= i < without_pid(ps, pid).len() ==> (#[trigger] without_pid(ps, pid)[i]).pid != pid
                && ps.contains(without_pid(ps, pid)[i]),
        forall|i: int| 0 <= i < ps.len() && (#[trigger] ps[i]).pid != pid ==> without_pid(ps, pid).contains(ps[i]),
    decreases ps.len(),
{
    if ps.len() > 0 {
        let front = ps.drop_last();
        law_deregister_exact(front, pid);
        let w = without_pid(front, pid);
        assert forall|i: int|
            0 <= i < without_pid(ps, pid).len() implies (#[trigger] without_pid(ps, pid)[i]).pid != pid
            && ps.contains(without_pid(ps, pid)[i]) by {
            if i < w.len() {
                assert(without_pid(ps, pid)[i] == w[i]);
                let k = choose|k: int| 0 <= k < front.len() && front[k] == w[i];
                assert(ps[k] == front[k]);
            } else {
                assert(without_pid(ps, pid)[i] == ps.last());
                assert(ps[ps.len() - 1] == ps.last());
            }
        }
        assert forall|i: int| 0 <= i < ps.len() && (#[trigger] ps[i]).pid != pid implies without_pid(
            ps,
            pid,
        ).contains(ps[i]) by {
            if i < front.len() {
                assert(front[i] == ps[i]);
                let k = choose|k: int| 0 <= k < w.len() && w[k] == ps[i];
                assert(without_pid(ps, pid)[k] == w[k]);
            } else {
                let r = without_pid(ps, pid);
                assert(r[r.len() - 1] == ps.last());
            }
        }
    }
}

/// Forgetting a process just recorded, whose pid no other process had,
/// gives back the processes recorded before.
pub proof fn law_register_then_deregister(ps: Seq<ProcessInfo>, info: ProcessInfo)
    requires
        forall|i: int| 0 <= i < ps.len() ==> ps[i].pid != info.pid,
    ensures
        without_pid(ps.push(info), info.pid) == ps,
{
    assert(ps.push(info).drop_last() == ps);
    lemma_without_absent_pid(ps, info.pid);
}

/// Forgetting a pid no process has changes nothing.
proof fn lemma_without_absent_pid(ps: Seq<ProcessInfo>, pid: u32)
    requires
        forall|i: int| 0 <= i < ps.len() ==> ps[i].pid != pid,
    ensures
        without_pid(ps, pid) == ps,
    decreases ps.len(),
{
    if ps.len() > 0 {
        let front = ps.drop_last();
        assert forall|i: int| 0 <= i < front.len() implies front[i].pid != pid by {
            assert(front[i] == ps[i]);
        }
        lemma_without_absent_pid(front, pid);
        assert(ps.last() == ps[ps.len() - 1]);
        assert(front.push(ps.last()) =~= ps);
    }
}

/// Recording a process adds one to the count of its profile and leaves the
/// other profiles' counts alone.
pub proof fn law_register_counts(ps: Seq<ProcessInfo>, info: ProcessInfo, name: Seq<char>)
    ensures
        count_profile(ps.push(info), name) == count_profile(ps, name) + if info.profile@ == name {
            1nat
        } else {
            0nat
        },
{
    assert(ps.push(info).drop_last() == ps);
}

} // verus!
