//! The command line: subcommands and flags.

use vstd::prelude::*;

use crate::execute::{Options, OptionsView};
use crate::number::{self, parse_numeral};
use crate::plan::Mode;
use crate::text::{self, chars_of, owned, same_text, spells, string_of, strip_prefix};

verus! {

/// A subcommand.
#[derive(Debug)]
pub enum Command {
    Diagnose,
    Plan,
    Execute,
    Rollback,
    Verify,
    Help,
    Unknown(String),
}

/// The contents of a [`Command`].
pub enum CommandView {
    Diagnose,
    Plan,
    Execute,
    Rollback,
    Verify,
    Help,
    Unknown(Seq<char>),
}

impl View for Command {
    type V = CommandView;

    open spec fn view(&self) -> CommandView {
        match self {
            Command::Diagnose => CommandView::Diagnose,
            Command::Plan => CommandView::Plan,
            Command::Execute => CommandView::Execute,
            Command::Rollback => CommandView::Rollback,
            Command::Verify => CommandView::Verify,
            Command::Help => CommandView::Help,
            Command::Unknown(s) => CommandView::Unknown(s@),
        }
    }
}

/// The subcommand of that name.
pub open spec fn command_named(s: Seq<char>) -> CommandView {
    if s == "diagnose"@ {
        CommandView::Diagnose
    } else if s == "plan"@ {
        CommandView::Plan
    } else if s == "execute"@ {
        CommandView::Execute
    } else if s == "rollback"@ {
        CommandView::Rollback
    } else if s == "verify"@ {
        CommandView::Verify
    } else if s == "-h"@ || s == "--help"@ || s == "help"@ {
        CommandView::Help
    } else {
        CommandView::Unknown(s)
    }
}

/// The subcommand that the arguments name first; without arguments it is `diagnose`.
pub open spec fn command_in(args: Seq<Seq<char>>) -> CommandView {
    if args.len() == 0 {
        CommandView::Diagnose
    } else {
        command_named(args[0])
    }
}

/// Reads the subcommand from the arguments of the program.
pub fn parse_command(args: &Vec<String>) -> (r: Command)
    ensures
        r@ == command_in(text::strings(args@)),
{
    if args.len() == 0 {
        return Command::Diagnose;
    }
    assert(text::strings(args@)[0] == args@[0]@);
    let s = args[0].as_str();
    if same_text(s, "diagnose") {
        Command::Diagnose
    } else if same_text(s, "plan") {
        Command::Plan
    } else if same_text(s, "execute") {
        Command::Execute
    } else if same_text(s, "rollback") {
        Command::Rollback
    } else if same_text(s, "verify") {
        Command::Verify
    } else if same_text(s, "-h") || same_text(s, "--help") || same_text(s, "help") {
        Command::Help
    } else {
        Command::Unknown(owned(s))
    }
}

/// The mode that a target names: `planned`, `current`, or a size index.
pub open spec fn target_named(s: Seq<char>) -> Result<Mode, Seq<char>> {
    if s == "planned"@ {
        Ok(Mode::Planned)
    } else if s == "current"@ {
        Ok(Mode::Current)
    } else {
        match number::numeral_value(s, 10, 255) {
            Ok(n) => Ok(Mode::Explicit(n as u8)),
            Err(_) => Err("bad --target value: "@ + s),
        }
    }
}

/// Reads the mode that a target names.
pub fn parse_target(v: &[char]) -> (r: Result<Mode, String>)
    ensures
        match r {
            Ok(m) => target_named(v@) == Ok::<Mode, Seq<char>>(m),
            Err(e) => target_named(v@) == Err::<Mode, Seq<char>>(e@),
        },
{
    if spells(v, "planned") {
        return Ok(Mode::Planned);
    }
    if spells(v, "current") {
        return Ok(Mode::Current);
    }
    match parse_numeral(v, 10, 255) {
        Ok(n) => Ok(Mode::Explicit(n as u8)),
        Err(_) => {
            let mut e = owned("bad --target value: ");
            e.append(string_of(v).as_str());
            Err(e)
        },
    }
}

/// The mode and the options that the flags from position `i` on lead to, starting from `mode` and
/// `o`. A flag that comes later overrides one before it; the first flag that is wrong decides the
/// error.
pub open spec fn flags_from(args: Seq<Seq<char>>, i: int, mode: Mode, o: OptionsView) -> Result<
    (Mode, OptionsView),
    Seq<char>,
>
    decreases args.len() - i,
{
    if i >= args.len() {
        Ok((mode, o))
    } else {
        let a = args[i];
        if a == "--yes"@ || a == "-y"@ {
            flags_from(args, i + 1, mode, OptionsView { yes: true, ..o })
        } else if a == "--force"@ {
            flags_from(args, i + 1, mode, OptionsView { force: true, ..o })
        } else if a == "--target"@ {
            if i + 1 < args.len() {
                match target_named(args[i + 1]) {
                    Ok(m) => flags_from(args, i + 2, m, o),
                    Err(e) => Err(e),
                }
            } else {
                Err("--target requires a value"@)
            }
        } else if text::starts(a, "--target="@) {
            match target_named(text::after_prefix(a, "--target="@)->0) {
                Ok(m) => flags_from(args, i + 1, m, o),
                Err(e) => Err(e),
            }
        } else if a == "--manifest"@ {
            if i + 1 < args.len() {
                flags_from(
                    args,
                    i + 2,
                    mode,
                    OptionsView { manifest_path: Some(args[i + 1]), ..o },
                )
            } else {
                Err("--manifest requires a value"@)
            }
        } else if text::starts(a, "--manifest="@) {
            flags_from(
                args,
                i + 1,
                mode,
                OptionsView { manifest_path: text::after_prefix(a, "--manifest="@), ..o },
            )
        } else {
            Err("unknown flag: "@ + a)
        }
    }
}

/// The mode and the options that the flags lead to.
pub open spec fn flags_of(args: Seq<Seq<char>>) -> Result<(Mode, OptionsView), Seq<char>> {
    flags_from(
        args,
        0,
        Mode::Planned,
        OptionsView { yes: false, force: false, manifest_path: None },
    )
}

/// Reads the flags.
pub fn parse_flags(args: &Vec<String>) -> (r: Result<(Mode, Options), String>)
    ensures
        match r {
            Ok((m, o)) => flags_of(text::strings(args@)) == Ok::<(Mode, OptionsView), Seq<char>>(
                (m, o@),
            ),
            Err(e) => flags_of(text::strings(args@)) == Err::<(Mode, OptionsView), Seq<char>>(e@),
        },
{
    let ghost all = text::strings(args@);
    let mut mode = Mode::Planned;
    let mut opts = Options { yes: false, force: false, manifest_path: None };
    let mut i: usize = 0;
    while i < args.len()
        invariant
            i <= args.len(),
            all == text::strings(args@),
            flags_of(all) == flags_from(all, i as int, mode, opts@),
        decreases args.len() - i,
    {
        assert(all[i as int] == args@[i as int]@);
        let a = args[i].as_str();
        let cs = chars_of(a);
        if same_text(a, "--yes") || same_text(a, "-y") {
            opts.yes = true;
        } else if same_text(a, "--force") {
            opts.force = true;
        } else if same_text(a, "--target") {
            i += 1;
            if i >= args.len() {
                return Err(owned("--target requires a value"));
            }
            assert(all[i as int] == args@[i as int]@);
            let v = chars_of(args[i].as_str());
            match parse_target(v.as_slice()) {
                Ok(m) => mode = m,
                Err(e) => return Err(e),
            }
        } else if let Some(v) = strip_prefix(cs.as_slice(), "--target=") {
            match parse_target(v) {
                Ok(m) => mode = m,
                Err(e) => return Err(e),
            }
        } else if same_text(a, "--manifest") {
            i += 1;
            if i >= args.len() {
                return Err(owned("--manifest requires a value"));
            }
            assert(all[i as int] == args@[i as int]@);
            opts.manifest_path = Some(owned(args[i].as_str()));
        } else if let Some(v) = strip_prefix(cs.as_slice(), "--manifest=") {
            opts.manifest_path = Some(string_of(v));
        } else {
            let mut e = owned("unknown flag: ");
            e.append(a);
            return Err(e);
        }
        i += 1;
    }
    Ok((mode, opts))
}

/// Every size index can be named as a target.
pub proof fn law_size_index_is_target(n: u8)
    ensures
        target_named(number::dec(n as nat)) == Ok::<Mode, Seq<char>>(Mode::Explicit(n)),
{
    number::lemma_dec_reads_back(n as nat, 255);
    reveal_strlit("planned");
    reveal_strlit("current");
    let d = number::dec(n as nat);
    assert("planned"@[0] == 'p');
    assert("current"@[0] == 'c');
    assert('0' <= d[0] <= '9');
}

} // verus!
