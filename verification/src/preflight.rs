//! Checks of the host before anything is changed.

use vstd::prelude::*;

use crate::number::{self, dec_text};
use crate::text::{self, chars_of, owned, spells, split_words, strip_prefix};

verus! {

/// The outcome of one check.
#[derive(Debug)]
pub struct Check {
    pub name: &'static str,
    pub ok: bool,
    pub detail: String,
}

/// The contents of a [`Check`].
#[verifier::ext_equal]
pub struct CheckView {
    pub name: Seq<char>,
    pub ok: bool,
    pub detail: Seq<char>,
}

impl View for Check {
    type V = CheckView;

    open spec fn view(&self) -> CheckView {
        CheckView { name: self.name@, ok: self.ok, detail: self.detail@ }
    }
}

impl Clone for Check {
    fn clone(&self) -> (r: Self)
        ensures
            r@ == self@,
    {
        Check { name: self.name, ok: self.ok, detail: owned(self.detail.as_str()) }
    }
}

/// The contents of a list of checks.
pub open spec fn check_views(v: Seq<Check>) -> Seq<CheckView> {
    Seq::new(v.len(), |i: int| v[i]@)
}

/// A parameter of the kernel that asks for reallocation: `pci=realloc`, also as the first of
/// several options.
pub open spec fn asks_realloc(word: Seq<char>) -> bool {
    word == "pci=realloc"@ || text::starts(word, "pci=realloc,"@)
}

/// One of the words of the kernel command line asks for reallocation.
pub open spec fn realloc_in(cmdline: Seq<char>) -> bool {
    let words = text::words(cmdline);
    exists|i: int| 0 <= i < words.len() && asks_realloc(#[trigger] words[i])
}

/// Whether the kernel command line asks for reallocation.
pub fn has_realloc(cmdline: &str) -> (r: bool)
    ensures
        r == realloc_in(cmdline@),
{
    let cs = chars_of(cmdline);
    let words = split_words(cs.as_slice());
    let ghost all = text::words(cmdline@);
    let mut i: usize = 0;
    while i < words.len()
        invariant
            i <= words.len(),
            all == text::words(cmdline@),
            all == text::texts(words@),
            forall|j: int| 0 <= j < i ==> !asks_realloc(#[trigger] all[j]),
        decreases words.len() - i,
    {
        assert(all[i as int] == words@[i as int]@);
        if spells(words[i].as_slice(), "pci=realloc") {
            return true;
        }
        if strip_prefix(words[i].as_slice(), "pci=realloc,").is_some() {
            return true;
        }
        i += 1;
    }
    false
}

/// The check that the user is root.
pub open spec fn root_check(uid: u32) -> CheckView {
    CheckView {
        name: "running as root"@,
        ok: uid == 0,
        detail: if uid == 0 {
            "uid=0"@
        } else {
            "uid="@ + number::dec(uid as nat)
                + " — config-space reads past 0x40 will return zeros/errors"@
        },
    }
}

/// The check that the kernel reallocates bridge windows, given what reading its command line gave.
pub open spec fn realloc_check(cmdline: Result<Seq<char>, Seq<char>>) -> CheckView {
    match cmdline {
        Ok(s) => CheckView {
            name: "pci=realloc in kernel cmdline"@,
            ok: realloc_in(s),
            detail: if realloc_in(s) {
                "present"@
            } else {
                "MISSING — required for Phase 2 (bridge window reallocation after resize)"@
            },
        },
        Err(e) => CheckView {
            name: "pci=realloc in kernel cmdline"@,
            ok: false,
            detail: "could not read /proc/cmdline: "@ + e,
        },
    }
}

/// The check that sysfs lists the PCI devices.
pub open spec fn sysfs_check(found: bool) -> CheckView {
    CheckView {
        name: "/sys/bus/pci/devices accessible"@,
        ok: found,
        detail: if found {
            "ok"@
        } else {
            "not found"@
        },
    }
}

/// Checks that the user is root.
pub fn check_root(uid: u32) -> (r: Check)
    ensures
        r@ == root_check(uid),
{
    let detail = if uid == 0 {
        owned("uid=0")
    } else {
        let mut d = owned("uid=");
        d.append(dec_text(uid as u64).as_str());
        d.append(" — config-space reads past 0x40 will return zeros/errors");
        d
    };
    Check { name: "running as root", ok: uid == 0, detail }
}

/// Checks that the kernel reallocates bridge windows.
pub fn check_pci_realloc(cmdline: &Result<String, String>) -> (r: Check)
    ensures
        r@ == realloc_check(crate::pci::device::reading(*cmdline)),
{
    match cmdline {
        Ok(s) => {
            let ok = has_realloc(s.as_str());
            let detail = if ok {
                owned("present")
            } else {
                owned("MISSING — required for Phase 2 (bridge window reallocation after resize)")
            };
            Check { name: "pci=realloc in kernel cmdline", ok, detail }
        },
        Err(e) => {
            let mut detail = owned("could not read /proc/cmdline: ");
            detail.append(e.as_str());
            Check { name: "pci=realloc in kernel cmdline", ok: false, detail }
        },
    }
}

/// Checks that sysfs lists the PCI devices.
pub fn check_sysfs(found: bool) -> (r: Check)
    ensures
        r@ == sysfs_check(found),
{
    let detail = if found {
        owned("ok")
    } else {
        owned("not found")
    };
    Check { name: "/sys/bus/pci/devices accessible", ok: found, detail }
}

/// All checks, in the order in which reports show them.
pub open spec fn all_checks(uid: u32, cmdline: Result<Seq<char>, Seq<char>>, sysfs: bool) -> Seq<
    CheckView,
> {
    seq![root_check(uid), realloc_check(cmdline), sysfs_check(sysfs)]
}

/// Runs all checks.
pub fn run_all(uid: u32, cmdline: &Result<String, String>, sysfs: bool) -> (r: Vec<Check>)
    ensures
        check_views(r@) == all_checks(uid, crate::pci::device::reading(*cmdline), sysfs),
{
    let mut r: Vec<Check> = Vec::new();
    r.push(check_root(uid));
    r.push(check_pci_realloc(cmdline));
    r.push(check_sysfs(sysfs));
    assert(check_views(r@) =~= all_checks(uid, crate::pci::device::reading(*cmdline), sysfs));
    r
}

} // verus!
