//! Who is using the GPUs: processes with open device nodes, and display managers.

use vstd::prelude::*;

use crate::number::{self, dec_text, parse_numeral};
use crate::text::{self, chars_of, owned, same_text, strip_prefix, trim_text};

verus! {

/// An entry of `/proc`: its name, what it calls itself, and where its open files point.
#[derive(Debug)]
pub struct Process {
    pub name: String,
    pub comm: Option<String>,
    pub open: Vec<String>,
}

/// The contents of a [`Process`].
#[verifier::ext_equal]
pub struct ProcessView {
    pub name: Seq<char>,
    pub comm: Option<Seq<char>>,
    pub open: Seq<Seq<char>>,
}

impl View for Process {
    type V = ProcessView;

    open spec fn view(&self) -> ProcessView {
        ProcessView {
            name: self.name@,
            comm: text::opt_text(self.comm),
            open: text::strings(self.open@),
        }
    }
}

/// The contents of a list of processes.
pub open spec fn process_views(v: Seq<Process>) -> Seq<ProcessView> {
    Seq::new(v.len(), |i: int| v[i]@)
}

/// What may be using the GPUs: the entries of `/proc`, and the display managers that are active.
#[derive(Debug)]
pub struct Consumers {
    pub processes: Vec<Process>,
    pub active: Vec<String>,
}

/// The contents of [`Consumers`].
#[verifier::ext_equal]
pub struct ConsumersView {
    pub processes: Seq<ProcessView>,
    pub active: Seq<Seq<char>>,
}

impl View for Consumers {
    type V = ConsumersView;

    open spec fn view(&self) -> ConsumersView {
        ConsumersView {
            processes: process_views(self.processes@),
            active: text::strings(self.active@),
        }
    }
}

/// The display managers to ask after.
pub open spec fn manager_units() -> Seq<Seq<char>> {
    seq!["display-manager"@, "gdm"@, "sddm"@, "lightdm"@, "ly"@]
}

/// The display managers to ask after.
pub fn display_managers() -> (r: Vec<String>)
    ensures
        text::strings(r@) == manager_units(),
{
    let mut r: Vec<String> = Vec::new();
    r.push(owned("display-manager"));
    r.push(owned("gdm"));
    r.push(owned("sddm"));
    r.push(owned("lightdm"));
    r.push(owned("ly"));
    assert(text::strings(r@) =~= manager_units());
    r
}

/// The number of a process, where an entry of `/proc` is one.
pub open spec fn pid_of(name: Seq<char>) -> Option<nat> {
    match number::numeral_value(name, 10, 0xffff_ffff) {
        Ok(n) => Some(n),
        Err(_) => None,
    }
}

/// Reads the number of a process from the name of an entry of `/proc`.
pub fn parse_pid(name: &str) -> (r: Option<u32>)
    ensures
        match r {
            Some(n) => pid_of(name@) == Some(n as nat),
            None => pid_of(name@) is None,
        },
{
    let cs = chars_of(name);
    match parse_numeral(cs.as_slice(), 10, 0xffff_ffff) {
        Ok(n) => Some(n as u32),
        Err(_) => None,
    }
}

/// A device node of a GPU.
pub open spec fn gpu_node(path: Seq<char>) -> bool {
    ||| text::starts(path, "/dev/dri/"@)
    ||| path == "/dev/kfd"@
    ||| text::starts(path, "/dev/nvidia"@)
}

/// Whether a path is a device node of a GPU.
pub fn is_gpu_node(path: &str) -> (r: bool)
    ensures
        r == gpu_node(path@),
{
    let cs = chars_of(path);
    strip_prefix(cs.as_slice(), "/dev/dri/").is_some() || same_text(path, "/dev/kfd")
        || strip_prefix(cs.as_slice(), "/dev/nvidia").is_some()
}

/// What a process calls itself, `?` where that cannot be read.
pub open spec fn comm_text(comm: Option<Seq<char>>) -> Seq<char> {
    match comm {
        Some(s) => text::trimmed(s),
        None => text::trimmed("?"@),
    }
}

/// The warning about a device node that a process has open.
pub open spec fn open_warning(pid: nat, comm: Option<Seq<char>>, path: Seq<char>) -> Seq<char> {
    "pid "@ + number::dec(pid) + " ("@ + comm_text(comm) + ") has "@ + path + " open"@
}

/// The warnings about one entry of `/proc`: one for each device node of a GPU that it has open,
/// none where it is no process.
pub open spec fn process_warnings(p: ProcessView) -> Seq<Seq<char>> {
    match pid_of(p.name) {
        None => seq![],
        Some(pid) => p.open.filter_map(
            |path: Seq<char>|
                if gpu_node(path) {
                    Some(open_warning(pid, p.comm, path))
                } else {
                    None::<Seq<char>>
                },
        ),
    }
}

/// The warnings about all entries of `/proc`, in their order.
pub open spec fn all_process_warnings(ps: Seq<ProcessView>) -> Seq<Seq<char>>
    decreases ps.len(),
{
    if ps.len() == 0 {
        seq![]
    } else {
        all_process_warnings(ps.drop_last()) + process_warnings(ps.last())
    }
}

/// The warnings about display managers.
pub open spec fn manager_warnings(active: Seq<Seq<char>>) -> Seq<Seq<char>> {
    Seq::new(active.len(), |i: int| "display manager "@ + active[i] + " is active"@)
}

/// All warnings: about processes, then about display managers.
pub open spec fn warnings_of(c: ConsumersView) -> Seq<Seq<char>> {
    all_process_warnings(c.processes) + manager_warnings(c.active)
}

fn push_text(v: &mut Vec<String>, s: String)
    ensures
        text::strings(final(v)@) == text::strings(old(v)@).push(s@),
{
    v.push(s);
    assert(text::strings(v@) =~= text::strings(old(v)@).push(s@));
}

fn push_process_warnings(v: &mut Vec<String>, p: &Process)
    ensures
        text::strings(final(v)@) == text::strings(old(v)@) + process_warnings(p@),
{
    let ghost start = text::strings(v@);
    let pid = match parse_pid(p.name.as_str()) {
        Some(n) => n,
        None => {
            assert(start + process_warnings(p@) =~= start);
            return ;
        },
    };
    let comm = match &p.comm {
        Some(s) => trim_text(s.as_str()),
        None => trim_text("?"),
    };
    let ghost all = text::strings(p.open@);
    let ghost done = |n: int| process_warnings(ProcessView { open: all.take(n), ..p@ });
    let mut i: usize = 0;
    assert(start + done(0) =~= start);
    while i < p.open.len()
        invariant
            i <= p.open.len(),
            all == text::strings(p.open@),
            done == (|n: int| process_warnings(ProcessView { open: all.take(n), ..p@ })),
            pid_of(p.name@) == Some(pid as nat),
            comm@ == comm_text(text::opt_text(p.comm)),
            text::strings(v@) == start + done(i as int),
        decreases p.open.len() - i,
    {
        assert(all.take(i + 1).drop_last() =~= all.take(i as int));
        assert(all.take(i + 1).last() == p.open@[i as int]@);
        let path = p.open[i].as_str();
        if is_gpu_node(path) {
            let mut w = owned("pid ");
            w.append(dec_text(pid as u64).as_str());
            w.append(" (");
            w.append(comm.as_str());
            w.append(") has ");
            w.append(path);
            w.append(" open");
            assert(done(i + 1) =~= done(i as int).push(w@));
            push_text(v, w);
            assert((start + done(i as int)).push(w@) =~= start + done(i + 1));
        } else {
            assert(done(i + 1) =~= done(i as int));
        }
        i += 1;
    }
    assert(all.take(i as int) =~= all);
    assert(ProcessView { open: all.take(i as int), ..p@ } == p@);
}

/// The warnings about what is using the GPUs.
pub fn consumer_warnings(c: &Consumers) -> (r: Vec<String>)
    ensures
        text::strings(r@) == warnings_of(c@),
{
    let mut r: Vec<String> = Vec::new();
    let ghost all = c@.processes;
    let mut i: usize = 0;
    assert(all.take(0) =~= seq![]);
    assert(text::strings(r@) =~= seq![]);
    while i < c.processes.len()
        invariant
            i <= c.processes.len(),
            all == c@.processes,
            text::strings(r@) == all_process_warnings(all.take(i as int)),
        decreases c.processes.len() - i,
    {
        assert(all.take(i + 1).drop_last() =~= all.take(i as int));
        assert(all.take(i + 1).last() == c.processes@[i as int]@);
        push_process_warnings(&mut r, &c.processes[i]);
        i += 1;
    }
    assert(all.take(i as int) =~= all);
    let ghost start = text::strings(r@);
    let ghost units = c@.active;
    let mut j: usize = 0;
    assert(start + manager_warnings(units.take(0)) =~= start);
    while j < c.active.len()
        invariant
            j <= c.active.len(),
            units == c@.active,
            text::strings(r@) == start + manager_warnings(units.take(j as int)),
        decreases c.active.len() - j,
    {
        let mut w = owned("display manager ");
        w.append(c.active[j].as_str());
        w.append(" is active");
        assert(units[j as int] == c.active@[j as int]@);
        let ghost text_w = w@;
        push_text(&mut r, w);
        j += 1;
        assert((start + manager_warnings(units.take(j - 1))).push(text_w) =~= start
            + manager_warnings(units.take(j as int)));
    }
    assert(units.take(j as int) =~= units);
    r
}

proof fn lemma_process_warned(p: ProcessView, i: int)
    requires
        pid_of(p.name) is Some,
        0 <= i < p.open.len(),
        gpu_node(p.open[i]),
    ensures
        process_warnings(p).len() > 0,
    decreases p.open.len(),
{
    let q = ProcessView { open: p.open.drop_last(), ..p };
    if i < p.open.len() - 1 {
        lemma_process_warned(q, i);
    }
}

proof fn lemma_all_warned(ps: Seq<ProcessView>, k: int)
    requires
        0 <= k < ps.len(),
        process_warnings(ps[k]).len() > 0,
    ensures
        all_process_warnings(ps).len() > 0,
    decreases ps.len(),
{
    if k < ps.len() - 1 {
        lemma_all_warned(ps.drop_last(), k);
    }
}

/// A process that has a device node of a GPU open is warned of, and so is a display manager that is
/// active.
pub proof fn law_consumers_are_warned_of(c: ConsumersView, k: int, i: int)
    ensures
        0 <= k < c.processes.len() && pid_of(c.processes[k].name) is Some && 0 <= i
            < c.processes[k].open.len() && gpu_node(c.processes[k].open[i]) ==> warnings_of(c).len()
            > 0,
        c.active.len() > 0 ==> warnings_of(c).len() > 0,
{
    if 0 <= k < c.processes.len() && pid_of(c.processes[k].name) is Some && 0 <= i
        < c.processes[k].open.len() && gpu_node(c.processes[k].open[i]) {
        lemma_process_warned(c.processes[k], i);
        lemma_all_warned(c.processes, k);
    }
}

} // verus!
