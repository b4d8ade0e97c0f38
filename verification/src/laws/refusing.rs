//! What is refused before anything is changed.

use vstd::prelude::*;

use crate::execute::consumers::{self, ConsumersView, ProcessView};
use crate::execute::{self, Facts, OptionsView};
use crate::laws::{numbers, texts};
use crate::number;
use crate::plan::PlanView;
use crate::preflight;
use crate::text;

verus! {

/// Every path below `/dev/dri/`, every path that starts with `/dev/nvidia`, and `/dev/kfd` is a
/// device node of a GPU, and no other path is.
pub proof fn law_gpu_nodes(path: Seq<char>, rest: Seq<char>)
    ensures
        consumers::gpu_node("/dev/dri/"@ + rest),
        consumers::gpu_node("/dev/nvidia"@ + rest),
        consumers::gpu_node("/dev/kfd"@),
        consumers::gpu_node(path) ==> {
            ||| "/dev/dri/"@.is_prefix_of(path)
            ||| "/dev/nvidia"@.is_prefix_of(path)
            ||| path == "/dev/kfd"@
        },
{
    let a = "/dev/dri/"@ + rest;
    assert(a.take("/dev/dri/"@.len() as int) =~= "/dev/dri/"@);
    let b = "/dev/nvidia"@ + rest;
    assert(b.take("/dev/nvidia"@.len() as int) =~= "/dev/nvidia"@);
    assert(path.take("/dev/dri/"@.len() as int) == path.subrange(0, "/dev/dri/"@.len() as int));
    assert(path.take("/dev/nvidia"@.len() as int) == path.subrange(0, "/dev/nvidia"@.len() as int));
}

/// The kernel was told to reallocate where a word of its command line is `pci=realloc`, or starts
/// with `pci=realloc,`, wherever the word stands.
pub proof fn law_realloc_is_found(a: Seq<char>, options: Seq<char>, b: Seq<char>)
    requires
        a.len() > 0 ==> text::white(a.last()),
        b.len() > 0 ==> text::white(b.first()),
        forall|i: int| 0 <= i < options.len() ==> !text::white(options[i]),
    ensures
        preflight::realloc_in(a + "pci=realloc"@ + b),
        preflight::realloc_in(a + ("pci=realloc,"@ + options) + b),
{
    reveal_strlit("pci=realloc");
    reveal_strlit("pci=realloc,");
    let v = "pci=realloc"@;
    texts::law_word_between(a, v, b);
    let n = text::words(a).len() as int;
    assert(text::words(a + v + b)[n] == v);
    assert(preflight::asks_realloc(text::words(a + v + b)[n]));
    let w = "pci=realloc,"@ + options;
    assert forall|i: int| 0 <= i < w.len() implies !text::white(w[i]) by {
        if i >= 12 {
            assert(w[i] == options[i - 12]);
        }
    }
    texts::law_word_between(a, w, b);
    texts::law_prefix(w, "pci=realloc,"@, options);
    assert(text::words(a + w + b)[n] == w);
    assert(preflight::asks_realloc(text::words(a + w + b)[n]));
}

/// The kernel was not told to reallocate where no word of its command line asks for it: a part of
/// a word, or a word that goes on otherwise, does not count.
pub proof fn law_only_realloc_is_found(cmdline: Seq<char>)
    requires
        preflight::realloc_in(cmdline),
    ensures
        exists|a: Seq<char>, w: Seq<char>, b: Seq<char>|
            {
                &&& cmdline == #[trigger] (a + w + b)
                &&& a.len() > 0 ==> text::white(a.last())
                &&& b.len() > 0 ==> text::white(b.first())
                &&& forall|i: int| 0 <= i < w.len() ==> !text::white(w[i])
                &&& w == "pci=realloc"@ || "pci=realloc,"@.is_prefix_of(w)
            },
{
    let words = text::words(cmdline);
    let i = choose|i: int| 0 <= i < words.len() && preflight::asks_realloc(#[trigger] words[i]);
    let w = words[i];
    texts::law_words_stand_in_text(cmdline, i);
    let (a, b) = choose|a: Seq<char>, b: Seq<char>|
        #![trigger a + text::words(cmdline)[i] + b]
        {
            &&& cmdline == a + text::words(cmdline)[i] + b
            &&& a.len() > 0 ==> text::white(a.last())
            &&& b.len() > 0 ==> text::white(b.first())
        };
    if w != "pci=realloc"@ {
        let p = "pci=realloc,"@;
        assert(w.subrange(0, p.len() as int) =~= w.take(p.len() as int));
    }
    assert(cmdline == a + w + b);
}

/// An entry of `/proc` is a process where its name is a decimal number of 32 bits.
pub proof fn law_process_numbers(n: nat, name: Seq<char>)
    ensures
        n <= 0xffff_ffff ==> consumers::pid_of(number::dec(n)) == Some(n),
        consumers::pid_of(name) matches Some(m) ==> m <= 0xffff_ffff && name.len() > 0 && forall|
            i: int,
        |
            0 < i < name.len() ==> '0' <= #[trigger] name[i] <= '9',
        name.len() == 0 ==> consumers::pid_of(name) is None,
{
    if n <= 0xffff_ffff {
        number::lemma_dec_reads_back(n, 0xffff_ffff);
    }
    if name.len() > 0 {
        if name[0] == '+' {
            numbers::lemma_digits(name.skip(1), 10, 0xffff_ffff);
            if consumers::pid_of(name) is Some {
                assert forall|i: int| 0 < i < name.len() implies '0' <= #[trigger] name[i]
                    <= '9' by {
                    assert(name.skip(1)[i - 1] == name[i]);
                }
            }
        } else {
            numbers::lemma_digits(name, 10, 0xffff_ffff);
        }
    }
}

/// A process is warned of once for each device node of a GPU that it has open, in order; what else
/// it has open gives no warning, and what is no process gives none.
pub proof fn law_open_nodes_are_warned_of(p: ProcessView, path: Seq<char>)
    ensures
        consumers::process_warnings(ProcessView { open: seq![], ..p }).len() == 0,
        consumers::pid_of(p.name) is None ==> consumers::process_warnings(p).len() == 0,
        ({
            let node = "/dev/dri/"@.is_prefix_of(path) || "/dev/nvidia"@.is_prefix_of(path) || path
                == "/dev/kfd"@;
            let more = ProcessView { open: p.open.push(path), ..p };
            let comm = match p.comm {
                Some(s) => text::trimmed(s),
                None => "?"@,
            };
            &&& consumers::pid_of(p.name) matches Some(pid) ==> (node
                ==> consumers::process_warnings(more) == consumers::process_warnings(p).push(
                "pid "@ + number::dec(pid) + " ("@ + comm + ") has "@ + path + " open"@,
            ))
            &&& !node ==> consumers::process_warnings(more) == consumers::process_warnings(p)
        }),
{
    let d = "/dev/dri/"@;
    let n = "/dev/nvidia"@;
    let node = d.is_prefix_of(path) || n.is_prefix_of(path) || path == "/dev/kfd"@;
    law_gpu_nodes(path, path);
    if d.is_prefix_of(path) {
        assert(path =~= d + path.skip(d.len() as int));
        law_gpu_nodes(path, path.skip(d.len() as int));
    }
    if n.is_prefix_of(path) {
        assert(path =~= n + path.skip(n.len() as int));
        law_gpu_nodes(path, path.skip(n.len() as int));
    }
    assert(consumers::gpu_node(path) == node);
    assert(p.open.push(path).drop_last() =~= p.open);
    assert(p.open.push(path).last() == path);
    reveal_strlit("?");
    text::lemma_trimmed_same("?"@);
    match consumers::pid_of(p.name) {
        Some(pid) => {
            if node {
                let w = consumers::open_warning(pid, p.comm, path);
                assert(consumers::process_warnings(p).push(w) =~= consumers::process_warnings(p)
                    + seq![w]);
            }
        },
        None => {},
    }
}

/// The warnings are those of each process, in order, and then one for each display manager that is
/// active.
pub proof fn law_warnings(c: ConsumersView, p: ProcessView, unit: Seq<char>)
    ensures
        consumers::warnings_of(ConsumersView { processes: seq![], active: seq![] }).len() == 0,
        consumers::warnings_of(
            ConsumersView { processes: c.processes.push(p), active: seq![] },
        ) == consumers::warnings_of(ConsumersView { processes: c.processes, active: seq![] })
            + consumers::process_warnings(p),
        consumers::warnings_of(ConsumersView { active: c.active.push(unit), ..c })
            == consumers::warnings_of(c).push("display manager "@ + unit + " is active"@),
{
    let ps = c.processes;
    assert(ps.push(p).drop_last() =~= ps);
    assert(ps.push(p).last() == p);
    assert(consumers::warnings_of(ConsumersView { processes: ps.push(p), active: seq![] })
        =~= consumers::warnings_of(ConsumersView { processes: ps, active: seq![] })
        + consumers::process_warnings(p));
    assert(consumers::warnings_of(ConsumersView { active: c.active.push(unit), ..c })
        =~= consumers::warnings_of(c).push("display manager "@ + unit + " is active"@));
}

proof fn lemma_notice(warnings: Seq<Seq<char>>, w: Seq<char>, n: nat)
    requires
        n <= warnings.len(),
    ensures
        execute::warning_lines(warnings.push(w), n) == execute::warning_lines(warnings, n),
    decreases n,
{
    if n > 0 {
        lemma_notice(warnings, w, (n - 1) as nat);
    }
}

/// The user is told of every warning, each on a line of its own, and of going on regardless where
/// `force` is set.
pub proof fn law_notice_lists_warnings(warnings: Seq<Seq<char>>, w: Seq<char>)
    ensures
        execute::consumer_notice(seq![], false) == "active GPU consumers detected:\n"@,
        execute::consumer_notice(warnings.push(w), false) == execute::consumer_notice(
            warnings,
            false,
        ) + "  - "@ + w + "\n"@,
        execute::consumer_notice(warnings, true) == execute::consumer_notice(warnings, false)
            + "(--force set, continuing anyway)\n"@,
{
    lemma_notice(warnings, w, warnings.len());
    assert(warnings.push(w)[warnings.len() as int] == w);
}

/// The answer that means consent is `YES`, with or without white space around it, and no other.
pub proof fn law_consent(a: Seq<char>, b: Seq<char>, line: Seq<char>)
    ensures
        (forall|i: int| 0 <= i < a.len() ==> text::white(a[i])) && (forall|i: int|
            0 <= i < b.len() ==> text::white(b[i])) ==> execute::consents(a + "YES"@ + b),
        execute::consents(line) ==> exists|x: Seq<char>, y: Seq<char>|
            {
                &&& line == #[trigger] (x + "YES"@ + y)
                &&& forall|i: int| 0 <= i < x.len() ==> text::white(x[i])
                &&& forall|i: int| 0 <= i < y.len() ==> text::white(y[i])
            },
{
    reveal_strlit("YES");
    if (forall|i: int| 0 <= i < a.len() ==> text::white(a[i])) && (forall|i: int|
        0 <= i < b.len() ==> text::white(b[i])) {
        texts::law_trimmed_of_padded(a, "YES"@, b);
    }
    if execute::consents(line) {
        texts::law_trimmed(line);
        let (x, y) = choose|x: Seq<char>, y: Seq<char>|
            #![trigger x + text::trimmed(line) + y]
            {
                &&& line == x + text::trimmed(line) + y
                &&& forall|i: int| 0 <= i < x.len() ==> text::white(x[i])
                &&& forall|i: int| 0 <= i < y.len() ==> text::white(y[i])
            };
        assert(line == x + "YES"@ + y);
    }
}

/// A process with a device node of a GPU open, or an active display manager, keeps an unforced
/// `execute` and an unforced `rollback` from changing anything or succeeding; once the user was
/// told, both fail.
pub proof fn law_use_of_gpus_is_refused(
    p: PlanView,
    o: OptionsView,
    f: Facts,
    k: int,
    pid: nat,
    i: int,
)
    requires
        !o.force,
        f.consumers is Some,
        ({
            let c = f.consumers->0@;
            ||| c.active.len() > 0
            ||| {
                &&& 0 <= k < c.processes.len()
                &&& pid <= 0xffff_ffff
                &&& c.processes[k].name == number::dec(pid)
                &&& 0 <= i < c.processes[k].open.len()
                &&& {
                    let path = c.processes[k].open[i];
                    "/dev/dri/"@.is_prefix_of(path) || "/dev/nvidia"@.is_prefix_of(path) || path
                        == "/dev/kfd"@
                }
            }
        }),
    ensures
        ({
            let s = execute::execute_step(p, o, f);
            &&& !(s is SaveManifest || s is Run || s is DeleteManifest || s is Finish)
            &&& f.uid is Some && f.cmdline is Some && f.warned ==> s is Fail
        }),
        ({
            let s = execute::rollback_step(o, f);
            &&& !(s is SaveManifest || s is Run || s is DeleteManifest || s is Finish)
            &&& f.uid is Some && f.cmdline is Some && f.loaded is Some && f.warned ==> s is Fail
        }),
{
    let c = f.consumers->0@;
    if c.active.len() == 0 {
        let path = c.processes[k].open[i];
        let d = "/dev/dri/"@;
        let n = "/dev/nvidia"@;
        law_process_numbers(pid, seq![]);
        law_gpu_nodes(path, path);
        if d.is_prefix_of(path) {
            assert(path =~= d + path.skip(d.len() as int));
            law_gpu_nodes(path, path.skip(d.len() as int));
        }
        if n.is_prefix_of(path) {
            assert(path =~= n + path.skip(n.len() as int));
            law_gpu_nodes(path, path.skip(n.len() as int));
        }
        assert(consumers::gpu_node(path));
    }
    consumers::law_consumers_are_warned_of(c, k, i);
}

} // verus!
