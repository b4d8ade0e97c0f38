//! What the command line means.

use vstd::prelude::*;

use crate::cli::{self, CommandView};
use crate::execute::OptionsView;
use crate::laws::texts;
use crate::number;
use crate::plan::Mode;
use crate::text;

verus! {

/// The subcommands by their names; what has another name is unknown.
pub proof fn law_commands(s: Seq<char>)
    ensures
        cli::command_named("diagnose"@) is Diagnose,
        cli::command_named("plan"@) is Plan,
        cli::command_named("execute"@) is Execute,
        cli::command_named("rollback"@) is Rollback,
        cli::command_named("verify"@) is Verify,
        cli::command_named("help"@) is Help,
        cli::command_named("--help"@) is Help,
        cli::command_named("-h"@) is Help,
        !{
            ||| s == "diagnose"@ || s == "plan"@ || s == "execute"@ || s == "rollback"@
            ||| s == "verify"@ || s == "help"@ || s == "--help"@ || s == "-h"@
        } ==> cli::command_named(s) == CommandView::Unknown(s),
{
    reveal_strlit("diagnose");
    reveal_strlit("plan");
    reveal_strlit("execute");
    reveal_strlit("rollback");
    reveal_strlit("verify");
    reveal_strlit("help");
    reveal_strlit("--help");
    reveal_strlit("-h");
    assert("diagnose"@[0] == 'd');
    assert("plan"@[0] == 'p');
    assert("execute"@[0] == 'e');
    assert("rollback"@[0] == 'r');
    assert("verify"@[0] == 'v');
    assert("help"@[0] == 'h');
    assert("--help"@[0] == '-');
    assert("-h"@[0] == '-');
}

/// The first argument names the subcommand, whatever follows; without arguments it is `diagnose`.
pub proof fn law_first_argument_counts(s: Seq<char>, rest: Seq<Seq<char>>)
    ensures
        cli::command_in(Seq::empty()) is Diagnose,
        cli::command_in(seq![s] + rest) == cli::command_named(s),
{
    assert((seq![s] + rest)[0] == s);
}

/// A target is `planned`, `current`, or a size index; every other text is refused with a message
/// that names it.
pub proof fn law_targets_named(s: Seq<char>, n: u8)
    ensures
        cli::target_named("planned"@) == Ok::<Mode, Seq<char>>(Mode::Planned),
        cli::target_named("current"@) == Ok::<Mode, Seq<char>>(Mode::Current),
        cli::target_named(number::dec(n as nat)) == Ok::<Mode, Seq<char>>(Mode::Explicit(n)),
        s != "planned"@ && s != "current"@ ==> match number::numeral_value(s, 10, 255) {
            Ok(i) => cli::target_named(s) == Ok::<Mode, Seq<char>>(Mode::Explicit(i as u8)),
            Err(_) => cli::target_named(s) == Err::<Mode, Seq<char>>("bad --target value: "@ + s),
        },
{
    reveal_strlit("planned");
    reveal_strlit("current");
    assert("planned"@[0] != "current"@[0]);
    cli::law_size_index_is_target(n);
}

/// Flags that read lead on to those behind them.
proof fn lemma_flags_go_on(
    args: Seq<Seq<char>>,
    more: Seq<Seq<char>>,
    i: int,
    mode: Mode,
    o: OptionsView,
)
    requires
        0 <= i <= args.len(),
        cli::flags_from(args, i, mode, o) is Ok,
    ensures
        ({
            let (m, p) = cli::flags_from(args, i, mode, o)->Ok_0;
            cli::flags_from(args + more, i, mode, o) == cli::flags_from(
                args + more,
                args.len() as int,
                m,
                p,
            )
        }),
    decreases args.len() - i,
{
    if i < args.len() {
        let a = args[i];
        assert((args + more)[i] == a);
        if i + 1 < args.len() {
            assert((args + more)[i + 1] == args[i + 1]);
        }
        if a == "--yes"@ || a == "-y"@ {
            lemma_flags_go_on(args, more, i + 1, mode, OptionsView { yes: true, ..o });
        } else if a == "--force"@ {
            lemma_flags_go_on(args, more, i + 1, mode, OptionsView { force: true, ..o });
        } else if a == "--target"@ {
            lemma_flags_go_on(args, more, i + 2, cli::target_named(args[i + 1])->Ok_0, o);
        } else if text::starts(a, "--target="@) {
            lemma_flags_go_on(
                args,
                more,
                i + 1,
                cli::target_named(text::after_prefix(a, "--target="@)->0)->Ok_0,
                o,
            );
        } else if a == "--manifest"@ {
            lemma_flags_go_on(
                args,
                more,
                i + 2,
                mode,
                OptionsView { manifest_path: Some(args[i + 1]), ..o },
            );
        } else if text::starts(a, "--manifest="@) {
            lemma_flags_go_on(
                args,
                more,
                i + 1,
                mode,
                OptionsView { manifest_path: text::after_prefix(a, "--manifest="@), ..o },
            );
        }
    }
}

proof fn lemma_literals(v: Seq<char>)
    ensures
        "--yes"@ != "-y"@,
        "--yes"@ != "--force"@,
        "-y"@ != "--force"@,
        "--target"@ != "--yes"@ && "--target"@ != "-y"@ && "--target"@ != "--force"@,
        "--manifest"@ != "--yes"@ && "--manifest"@ != "-y"@ && "--manifest"@ != "--force"@,
        "--manifest"@ != "--target"@,
        !text::starts("--manifest"@, "--target="@),
        ({
            let t = "--target="@ + v;
            &&& t != "--yes"@ && t != "-y"@ && t != "--force"@ && t != "--target"@
            &&& text::after_prefix(t, "--target="@) == Some(v)
            &&& text::starts(t, "--target="@)
        }),
        ({
            let m = "--manifest="@ + v;
            &&& m != "--yes"@ && m != "-y"@ && m != "--force"@ && m != "--target"@ && m
                != "--manifest"@
            &&& !text::starts(m, "--target="@)
            &&& text::after_prefix(m, "--manifest="@) == Some(v)
            &&& text::starts(m, "--manifest="@)
        }),
{
    reveal_strlit("--yes");
    reveal_strlit("-y");
    reveal_strlit("--force");
    reveal_strlit("--target");
    reveal_strlit("--target=");
    reveal_strlit("--manifest");
    reveal_strlit("--manifest=");
    texts::law_prefix("--target="@ + v, "--target="@, v);
    texts::law_prefix("--manifest="@ + v, "--manifest="@, v);
    assert("-y"@.len() == 2 && "--yes"@.len() == 5 && "--force"@.len() == 7);
    assert("--target"@.len() == 8 && "--manifest"@.len() == 10);
    assert("--yes"@[2] == 'y');
    assert("--force"@[2] == 'f');
    assert("--target"@[2] == 't');
    assert("--manifest"@[2] == 'm');
    let t = "--target="@ + v;
    let m = "--manifest="@ + v;
    assert(t[2] == 't' && t[8] == '=');
    assert(m[2] == 'm');
    assert("--target="@[2] == 't');
    if text::starts(m, "--target="@) {
        assert(m.take(9)[2] == m[2]);
    }
    if text::starts("--manifest"@, "--target="@) {
        assert("--manifest"@.take(9)[2] == "--manifest"@[2]);
    }
}

/// Without flags the sizes are the preferred ones, the user is asked, nothing is overridden, and
/// the manifest is at its default path. One more flag, behind flags that read, sets what it names,
/// over what was set before, and leaves the rest. A value may follow its flag behind `=` or as an
/// argument of its own; where it is missing or wrong, and where the flag is unknown, the message
/// says so.
#[verifier::rlimit(30)]
#[verifier::spinoff_prover]
pub proof fn law_one_more_flag(
    args: Seq<Seq<char>>,
    mode: Mode,
    o: OptionsView,
    v: Seq<char>,
    x: Seq<char>,
)
    requires
        cli::flags_of(args) == Ok::<(Mode, OptionsView), Seq<char>>((mode, o)),
    ensures
        cli::flags_of(Seq::empty()) == Ok::<(Mode, OptionsView), Seq<char>>(
            (Mode::Planned, OptionsView { yes: false, force: false, manifest_path: None }),
        ),
        cli::flags_of(args.push("--yes"@)) == Ok::<(Mode, OptionsView), Seq<char>>(
            (mode, OptionsView { yes: true, ..o }),
        ),
        cli::flags_of(args.push("-y"@)) == Ok::<(Mode, OptionsView), Seq<char>>(
            (mode, OptionsView { yes: true, ..o }),
        ),
        cli::flags_of(args.push("--force"@)) == Ok::<(Mode, OptionsView), Seq<char>>(
            (mode, OptionsView { force: true, ..o }),
        ),
        cli::flags_of(args.push("--target="@ + v)) == match cli::target_named(v) {
            Ok(m) => Ok::<(Mode, OptionsView), Seq<char>>((m, o)),
            Err(e) => Err(e),
        },
        cli::flags_of(args.push("--target"@).push(v)) == cli::flags_of(
            args.push("--target="@ + v),
        ),
        cli::flags_of(args.push("--manifest="@ + v)) == Ok::<(Mode, OptionsView), Seq<char>>(
            (mode, OptionsView { manifest_path: Some(v), ..o }),
        ),
        cli::flags_of(args.push("--manifest"@).push(v)) == cli::flags_of(
            args.push("--manifest="@ + v),
        ),
        cli::flags_of(args.push("--target"@)) == Err::<(Mode, OptionsView), Seq<char>>(
            "--target requires a value"@,
        ),
        cli::flags_of(args.push("--manifest"@)) == Err::<(Mode, OptionsView), Seq<char>>(
            "--manifest requires a value"@,
        ),
        ({
            ||| x == "--yes"@ || x == "-y"@ || x == "--force"@
            ||| x == "--target"@ || "--target="@.is_prefix_of(x)
            ||| x == "--manifest"@ || "--manifest="@.is_prefix_of(x)
        }) || cli::flags_of(args.push(x)) == Err::<(Mode, OptionsView), Seq<char>>(
            "unknown flag: "@ + x,
        ),
{
    let start = OptionsView { yes: false, force: false, manifest_path: None };
    let n = args.len() as int;
    reveal_with_fuel(cli::flags_from, 3);
    lemma_literals(v);
    lemma_step(args, "--yes"@, mode, o);
    lemma_step(args, "-y"@, mode, o);
    lemma_step(args, "--force"@, mode, o);
    lemma_step(args, "--target="@ + v, mode, o);
    lemma_step(args, "--manifest="@ + v, mode, o);
    lemma_step(args, "--target"@, mode, o);
    lemma_step(args, "--manifest"@, mode, o);
    lemma_step(args, x, mode, o);
    let t = "--target="@;
    assert(x.take(t.len() as int) == x.subrange(0, t.len() as int));
    let m = "--manifest="@;
    assert(x.take(m.len() as int) == x.subrange(0, m.len() as int));
    let a = args.push("--target"@).push(v);
    assert(a =~= args + seq!["--target"@, v]);
    lemma_flags_go_on(args, seq!["--target"@, v], 0, Mode::Planned, start);
    assert(a[n] == "--target"@ && a[n + 1] == v);
    let b = args.push("--manifest"@).push(v);
    assert(b =~= args + seq!["--manifest"@, v]);
    lemma_flags_go_on(args, seq!["--manifest"@, v], 0, Mode::Planned, start);
    assert(b[n] == "--manifest"@ && b[n + 1] == v);
}

proof fn lemma_step(args: Seq<Seq<char>>, x: Seq<char>, mode: Mode, o: OptionsView)
    requires
        cli::flags_of(args) == Ok::<(Mode, OptionsView), Seq<char>>((mode, o)),
    ensures
        cli::flags_of(args.push(x)) == cli::flags_from(args.push(x), args.len() as int, mode, o),
        args.push(x)[args.len() as int] == x,
        args.push(x).len() == args.len() + 1,
        forall|m: Mode, p: OptionsView| #[trigger]
            cli::flags_from(args.push(x), args.len() as int + 1, m, p) == Ok::<
                (Mode, OptionsView),
                Seq<char>,
            >((m, p)),
{
    let start = OptionsView { yes: false, force: false, manifest_path: None };
    lemma_flags_go_on(args, seq![x], 0, Mode::Planned, start);
    assert(args + seq![x] =~= args.push(x));
}

/// The first flag that is wrong decides the error, whatever follows it.
pub proof fn law_first_wrong_flag(
    args: Seq<Seq<char>>,
    v: Seq<char>,
    x: Seq<char>,
    more: Seq<Seq<char>>,
)
    requires
        cli::flags_of(args) is Ok,
    ensures
        cli::target_named(v) matches Err(e) ==> {
            &&& cli::flags_of(args + (seq!["--target="@ + v] + more)) == Err::<
                (Mode, OptionsView),
                Seq<char>,
            >(e)
            &&& cli::flags_of(args + (seq!["--target"@, v] + more)) == Err::<
                (Mode, OptionsView),
                Seq<char>,
            >(e)
        },
        ({
            ||| x == "--yes"@ || x == "-y"@ || x == "--force"@
            ||| x == "--target"@ || "--target="@.is_prefix_of(x)
            ||| x == "--manifest"@ || "--manifest="@.is_prefix_of(x)
        }) || cli::flags_of(args + (seq![x] + more)) == Err::<(Mode, OptionsView), Seq<char>>(
            "unknown flag: "@ + x,
        ),
{
    let start = OptionsView { yes: false, force: false, manifest_path: None };
    let n = args.len() as int;
    lemma_literals(v);
    let a = seq!["--target="@ + v] + more;
    lemma_flags_go_on(args, a, 0, Mode::Planned, start);
    assert((args + a)[n] == "--target="@ + v);
    let b = seq!["--target"@, v] + more;
    lemma_flags_go_on(args, b, 0, Mode::Planned, start);
    assert((args + b)[n] == "--target"@);
    assert((args + b)[n + 1] == v);
    let c = seq![x] + more;
    lemma_flags_go_on(args, c, 0, Mode::Planned, start);
    assert((args + c)[n] == x);
    let t = "--target="@;
    assert(x.take(t.len() as int) == x.subrange(0, t.len() as int));
    let m = "--manifest="@;
    assert(x.take(m.len() as int) == x.subrange(0, m.len() as int));
}

} // verus!
