//! Where the PCI tree is cut to make the kernel lay it out anew.

use vstd::prelude::*;

use crate::pci::device::{self, DeviceView};
use crate::pci::{Bdf, Device};

verus! {

/// The cut point of a device: the top-most bridge above it.
pub open spec fn cut_of(dev: DeviceView) -> Option<Bdf> {
    if dev.parent_chain.len() > 0 {
        Some(dev.parent_chain[0])
    } else {
        None
    }
}

/// The bridge whose removal takes the whole subtree of the device with it: the top-most address on
/// its path, the immediate child of the host bridge. There is none where the device is attached to
/// the host bridge directly.
pub fn cut_point(dev: &Device) -> (r: Option<Bdf>)
    ensures
        r == cut_of(dev@),
{
    if dev.parent_chain.len() > 0 {
        Some(dev.parent_chain[0])
    } else {
        None
    }
}

/// The addresses ascend, and none occurs twice.
pub open spec fn strictly_ascending(s: Seq<Bdf>) -> bool {
    forall|i: int, j: int| 0 <= i < j < s.len() ==> s[i].rank() < s[j].rank()
}

/// The addresses of `v`, each once, in ascending order.
pub fn distinct(v: &Vec<Bdf>) -> (r: Vec<Bdf>)
    ensures
        strictly_ascending(r@),
        forall|b: Bdf| #[trigger] r@.contains(b) <==> v@.contains(b),
{
    let mut r: Vec<Bdf> = Vec::new();
    let mut i: usize = 0;
    while i < v.len()
        invariant
            i <= v.len(),
            strictly_ascending(r@),
            forall|b: Bdf| #[trigger] r@.contains(b) <==> v@.take(i as int).contains(b),
        decreases v.len() - i,
    {
        let b = v[i];
        let mut p: usize = r.len();
        while p > 0 && b.precedes(&r[p - 1])
            invariant
                p <= r.len(),
                forall|j: int| p <= j < r@.len() ==> b.rank() < r@[j].rank(),
            decreases p,
        {
            p -= 1;
        }
        let ghost before = r@;
        assert(v@.take(i + 1) =~= v@.take(i as int).push(b));
        proof {
            if p > 0 {
                crate::pci::law_bdf_order(before[p - 1], b);
            }
        }
        if p > 0 && r[p - 1] == b {
            assert forall|c: Bdf| #[trigger] r@.contains(c) <==> v@.take(i + 1).contains(c) by {
                lemma_contains_push(v@.take(i as int), b, c);
                assert(before[p - 1] == b);
            }
        } else {
            r.insert(p, b);
            assert forall|c: Bdf| #[trigger] r@.contains(c) <==> v@.take(i + 1).contains(c) by {
                lemma_contains_push(v@.take(i as int), b, c);
                lemma_contains_insert(before, p as int, b, c);
            }
            assert(strictly_ascending(r@)) by {
                assert forall|x: int, y: int| 0 <= x < y < r@.len() implies r@[x].rank()
                    < r@[y].rank() by {
                    if x < p && y == p {
                        assert(before[x].rank() <= before[p - 1].rank());
                        assert(before[p - 1].rank() < b.rank());
                    }
                }
            }
        }
        i += 1;
    }
    assert(v@.take(i as int) =~= v@);
    r
}

proof fn lemma_contains_push(s: Seq<Bdf>, b: Bdf, c: Bdf)
    ensures
        s.push(b).contains(c) <==> s.contains(c) || c == b,
{
    if s.contains(c) {
        let i = choose|i: int| 0 <= i < s.len() && s[i] == c;
        assert(s.push(b)[i] == c);
    }
    assert(s.push(b)[s.len() as int] == b);
}

proof fn lemma_contains_insert(s: Seq<Bdf>, p: int, b: Bdf, c: Bdf)
    requires
        0 <= p <= s.len(),
    ensures
        s.insert(p, b).contains(c) <==> s.contains(c) || c == b,
{
    let t = s.insert(p, b);
    if s.contains(c) {
        let i = choose|i: int| 0 <= i < s.len() && s[i] == c;
        assert(t[if i < p { i } else { i + 1 }] == c);
    }
    assert(t[p] == b);
    if t.contains(c) && c != b {
        let i = choose|i: int| 0 <= i < t.len() && t[i] == c;
        assert(s[if i < p { i } else { i - 1 }] == c);
    }
}

/// The addresses of any list can be put in strictly ascending order.
pub proof fn lemma_distinct_exists(v: Seq<Bdf>)
    ensures
        exists|s: Seq<Bdf>|
            strictly_ascending(s) && forall|b: Bdf| #[trigger] s.contains(b) <==> v.contains(b),
    decreases v.len(),
{
    if v.len() == 0 {
        let s = Seq::<Bdf>::empty();
        assert(strictly_ascending(s));
        assert(forall|b: Bdf| #[trigger] s.contains(b) <==> v.contains(b));
    } else {
        let front = v.drop_last();
        let last = v.last();
        lemma_distinct_exists(front);
        let s = choose|s: Seq<Bdf>|
            strictly_ascending(s) && forall|b: Bdf| #[trigger]
                s.contains(b) <==> front.contains(b);
        assert(v =~= front.push(last));
        assert forall|b: Bdf| #[trigger] v.contains(b) <==> front.contains(b) || b == last by {
            lemma_contains_push(front, last, b);
        }
        if s.contains(last) {
            assert(forall|b: Bdf| #[trigger] s.contains(b) <==> v.contains(b));
        } else {
            let p = lemma_place(s, last, s.len() as int);
            let t = s.insert(p, last);
            assert forall|b: Bdf| #[trigger] t.contains(b) <==> v.contains(b) by {
                lemma_contains_insert(s, p, last, b);
            }
            assert forall|i: int, j: int| 0 <= i < j < t.len() implies t[i].rank()
                < t[j].rank() by {
                assert(t[i] == if i < p {
                    s[i]
                } else if i == p {
                    last
                } else {
                    s[i - 1]
                });
                assert(t[j] == if j < p {
                    s[j]
                } else if j == p {
                    last
                } else {
                    s[j - 1]
                });
            }
            assert(strictly_ascending(t));
        }
    }
}

/// The place at which `b` can be put into a strictly ascending list that lacks it.
proof fn lemma_place(s: Seq<Bdf>, b: Bdf, n: int) -> (p: int)
    requires
        strictly_ascending(s),
        !s.contains(b),
        0 <= n <= s.len(),
        forall|j: int| n <= j < s.len() ==> b.rank() < s[j].rank(),
    ensures
        0 <= p <= s.len(),
        forall|j: int| 0 <= j < p ==> s[j].rank() < b.rank(),
        forall|j: int| p <= j < s.len() ==> b.rank() < s[j].rank(),
    decreases n,
{
    if n == 0 {
        0
    } else {
        assert(s.contains(s[n - 1]));
        if s[n - 1].rank() < b.rank() {
            n
        } else {
            crate::pci::law_bdf_order(s[n - 1], b);
            lemma_place(s, b, n - 1)
        }
    }
}

/// Two strictly ascending lists with the same addresses are the same list.
pub proof fn lemma_strictly_ascending_unique(a: Seq<Bdf>, b: Seq<Bdf>)
    requires
        strictly_ascending(a),
        strictly_ascending(b),
        forall|x: Bdf| a.contains(x) <==> b.contains(x),
    ensures
        a == b,
    decreases a.len(),
{
    if a.len() == 0 {
        if b.len() > 0 {
            assert(b.contains(b[0]));
            assert(a.contains(b[0]));
        }
        assert(a =~= b);
    } else {
        let x = a.last();
        assert(a.contains(x));
        assert(b.contains(x));
        let y = b.last();
        assert(b.contains(y));
        assert(a.contains(y));
        let i = choose|i: int| 0 <= i < b.len() && b[i] == x;
        let j = choose|j: int| 0 <= j < a.len() && a[j] == y;
        assert(x.rank() <= y.rank());
        assert(y.rank() <= x.rank());
        crate::pci::law_bdf_order(x, y);
        assert(x == y);
        let a1 = a.drop_last();
        let b1 = b.drop_last();
        assert forall|c: Bdf| a1.contains(c) <==> b1.contains(c) by {
            if a1.contains(c) {
                let k = choose|k: int| 0 <= k < a1.len() && a1[k] == c;
                assert(a[k] == c);
                assert(a[k].rank() < x.rank());
                assert(a.contains(c));
                let m = choose|m: int| 0 <= m < b.len() && b[m] == c;
                assert(b1[m] == c);
            }
            if b1.contains(c) {
                let k = choose|k: int| 0 <= k < b1.len() && b1[k] == c;
                assert(b[k] == c);
                assert(b[k].rank() < y.rank());
                assert(b.contains(c));
                let m = choose|m: int| 0 <= m < a.len() && a[m] == c;
                assert(a1[m] == c);
            }
        }
        lemma_strictly_ascending_unique(a1, b1);
        assert(a =~= a1.push(x));
        assert(b =~= b1.push(y));
    }
}

// ---------------------------------------------------------------- groups

/// The GPUs below one cut point.
#[derive(Debug)]
pub struct CutGroup {
    pub cut: Bdf,
    pub members: Vec<Bdf>,
}

/// The contents of a [`CutGroup`].
#[verifier::ext_equal]
pub struct CutGroupView {
    pub cut: Bdf,
    pub members: Seq<Bdf>,
}

impl View for CutGroup {
    type V = CutGroupView;

    open spec fn view(&self) -> CutGroupView {
        CutGroupView { cut: self.cut, members: self.members@ }
    }
}

/// The contents of a list of groups.
pub open spec fn group_views(v: Seq<CutGroup>) -> Seq<CutGroupView> {
    Seq::new(v.len(), |i: int| v[i]@)
}

/// The contents of a list of borrowed devices.
pub open spec fn borrowed_views(v: Seq<&Device>) -> Seq<DeviceView> {
    Seq::new(v.len(), |i: int| v[i]@)
}

/// The devices below `cut`, in the order of the list.
pub open spec fn below(gpus: Seq<DeviceView>, cut: Bdf) -> Seq<Bdf> {
    gpus.filter_map(
        |d: DeviceView|
            if cut_of(d) == Some(cut) {
                Some(d.bdf)
            } else {
                None
            },
    )
}

/// The cut points of the devices that have one, in the order of the list.
pub open spec fn cuts(gpus: Seq<DeviceView>) -> Seq<Bdf> {
    gpus.filter_map(|d: DeviceView| cut_of(d))
}

/// Where every device has a cut point, the cut points are those of the devices, one by one.
pub proof fn lemma_all_cuts(gpus: Seq<DeviceView>)
    requires
        forall|i: int| 0 <= i < gpus.len() ==> cut_of(#[trigger] gpus[i]) is Some,
    ensures
        cuts(gpus) == Seq::new(gpus.len(), |i: int| cut_of(gpus[i])->0),
    decreases gpus.len(),
{
    if gpus.len() > 0 {
        let front = gpus.drop_last();
        let last = gpus[gpus.len() - 1];
        assert forall|i: int| 0 <= i < front.len() implies cut_of(#[trigger] front[i]) is Some by {
            assert(front[i] == gpus[i]);
        }
        lemma_all_cuts(front);
        assert(cut_of(last) is Some);
        assert(cuts(gpus) =~= cuts(front) + seq![cut_of(last)->0]);
        assert(cuts(gpus) =~= Seq::new(gpus.len(), |i: int| cut_of(gpus[i])->0));
    } else {
        assert(cuts(gpus) =~= seq![]);
    }
}

/// The cut points of a list of groups.
pub open spec fn group_cuts(groups: Seq<CutGroupView>) -> Seq<Bdf> {
    Seq::new(groups.len(), |i: int| groups[i].cut)
}

/// The groups gather the devices by cut point: one group for each cut point that occurs, in
/// ascending order, with the devices below it in the order of the list.
pub open spec fn grouped(gpus: Seq<DeviceView>, groups: Seq<CutGroupView>) -> bool {
    &&& strictly_ascending(group_cuts(groups))
    &&& forall|c: Bdf| #[trigger] group_cuts(groups).contains(c) <==> cuts(gpus).contains(c)
    &&& forall|i: int|
        0 <= i < groups.len() ==> (#[trigger] groups[i]).members == below(gpus, groups[i].cut)
}

/// Only one list of groups gathers the devices by cut point.
pub proof fn law_grouping_unique(
    gpus: Seq<DeviceView>,
    a: Seq<CutGroupView>,
    b: Seq<CutGroupView>,
)
    requires
        grouped(gpus, a),
        grouped(gpus, b),
    ensures
        a == b,
{
    lemma_strictly_ascending_unique(group_cuts(a), group_cuts(b));
    assert(group_cuts(a).len() == group_cuts(b).len());
    assert forall|i: int| 0 <= i < a.len() implies a[i] == b[i] by {
        assert(group_cuts(a)[i] == group_cuts(b)[i]);
    }
    assert(a =~= b);
}

/// Every device with a cut point is a member of the group of that cut point.
pub proof fn law_groups_hold_all(gpus: Seq<DeviceView>, groups: Seq<CutGroupView>, i: int)
    requires
        grouped(gpus, groups),
        0 <= i < gpus.len(),
        cut_of(gpus[i]) is Some,
    ensures
        exists|g: int|
            0 <= g < groups.len() && groups[g].cut == cut_of(gpus[i])->0 && (
            #[trigger] groups[g]).members.contains(gpus[i].bdf),
{
    let c = cut_of(gpus[i])->0;
    lemma_cuts_hold(gpus, i);
    assert(group_cuts(groups).contains(c));
    let g = choose|g: int| 0 <= g < groups.len() && group_cuts(groups)[g] == c;
    lemma_below_holds(gpus, c, i);
    assert(groups[g].members.contains(gpus[i].bdf));
}

proof fn lemma_cuts_hold(gpus: Seq<DeviceView>, i: int)
    requires
        0 <= i < gpus.len(),
        cut_of(gpus[i]) is Some,
    ensures
        cuts(gpus).contains(cut_of(gpus[i])->0),
    decreases gpus.len(),
{
    let c = cut_of(gpus[i])->0;
    let rest = gpus.drop_last();
    let s = cuts(rest);
    if i == gpus.len() - 1 {
        assert(cuts(gpus) == s + seq![c]);
        assert(cuts(gpus)[s.len() as int] == c);
    } else {
        lemma_cuts_hold(rest, i);
        let k = choose|k: int| 0 <= k < s.len() && s[k] == c;
        assert(cuts(gpus)[k] == c);
    }
}

proof fn lemma_below_holds(gpus: Seq<DeviceView>, c: Bdf, i: int)
    requires
        0 <= i < gpus.len(),
        cut_of(gpus[i]) == Some(c),
    ensures
        below(gpus, c).contains(gpus[i].bdf),
    decreases gpus.len(),
{
    let rest = gpus.drop_last();
    let s = below(rest, c);
    if i == gpus.len() - 1 {
        assert(below(gpus, c) == s + seq![gpus[i].bdf]);
        assert(below(gpus, c)[s.len() as int] == gpus[i].bdf);
    } else {
        lemma_below_holds(rest, c, i);
        let k = choose|k: int| 0 <= k < s.len() && s[k] == gpus[i].bdf;
        assert(below(gpus, c)[k] == gpus[i].bdf);
    }
}

fn members_below(gpus: &[&Device], cut: Bdf) -> (r: Vec<Bdf>)
    ensures
        r@ == below(borrowed_views(gpus@), cut),
{
    let ghost all = borrowed_views(gpus@);
    let mut r: Vec<Bdf> = Vec::new();
    let mut i: usize = 0;
    while i < gpus.len()
        invariant
            i <= gpus.len(),
            all == borrowed_views(gpus@),
            r@ == below(all.take(i as int), cut),
        decreases gpus.len() - i,
    {
        assert(all.take(i + 1).drop_last() =~= all.take(i as int));
        let d = gpus[i];
        assert(all.take(i + 1).last() == d@);
        let ghost before = r@;
        match cut_point(d) {
            Some(c) => {
                if c == cut {
                    r.push(d.bdf);
                    assert(r@ =~= before + seq![d@.bdf]);
                }
            },
            None => {},
        }
        i += 1;
    }
    assert(all.take(i as int) =~= all);
    r
}

/// Gathers GPUs by cut point, so that one removal and one rescan serve all that share a subtree.
pub fn group_by_cut_point(gpus: &[&Device]) -> (r: Vec<CutGroup>)
    ensures
        grouped(borrowed_views(gpus@), group_views(r@)),
{
    let ghost all = borrowed_views(gpus@);
    let mut found: Vec<Bdf> = Vec::new();
    let mut i: usize = 0;
    while i < gpus.len()
        invariant
            i <= gpus.len(),
            all == borrowed_views(gpus@),
            found@ == cuts(all.take(i as int)),
        decreases gpus.len() - i,
    {
        assert(all.take(i + 1).drop_last() =~= all.take(i as int));
        let d = gpus[i];
        assert(all.take(i + 1).last() == d@);
        let ghost before = found@;
        match cut_point(d) {
            Some(c) => {
                found.push(c);
                assert(found@ =~= before + seq![c]);
            },
            None => {},
        }
        i += 1;
    }
    assert(all.take(i as int) =~= all);
    let keys = distinct(&found);
    let mut r: Vec<CutGroup> = Vec::new();
    let mut k: usize = 0;
    while k < keys.len()
        invariant
            k <= keys.len(),
            all == borrowed_views(gpus@),
            group_cuts(group_views(r@)) == keys@.take(k as int),
            forall|j: int|
                0 <= j < r@.len() ==> (#[trigger] group_views(r@)[j]).members == below(
                    all,
                    group_views(r@)[j].cut,
                ),
        decreases keys.len() - k,
    {
        let cut = keys[k];
        let members = members_below(gpus, cut);
        let ghost before = r@;
        r.push(CutGroup { cut, members });
        assert(group_views(r@) =~= group_views(before).push(r@[before.len() as int]@));
        k += 1;
        assert(group_cuts(group_views(r@)) =~= group_cuts(group_views(before)).push(cut));
        assert(keys@.take(k as int) =~= keys@.take(k - 1).push(cut));
    }
    assert(keys@.take(k as int) =~= keys@);
    r
}

} // verus!
