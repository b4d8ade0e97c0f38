//! Where the PCI tree is cut.

use vstd::prelude::*;

use crate::pci::device::DeviceView;
use crate::pci::Bdf;
use crate::plan;
use crate::topology;

verus! {

/// The cut point is the root-most bridge above a device. A bridge that is put above all others
/// becomes the cut point; one that is put below them, between them and the device, does not.
pub proof fn law_cut_point_is_root_most(dev: DeviceView, b: Bdf)
    ensures
        topology::cut_of(
            DeviceView { parent_chain: seq![b] + dev.parent_chain, ..dev },
        ) == Some(b),
        dev.parent_chain.len() > 0 ==> topology::cut_of(
            DeviceView { parent_chain: dev.parent_chain.push(b), ..dev },
        ) == topology::cut_of(dev),
        dev.parent_chain.len() > 0 ==> topology::cut_of(dev) == Some(dev.parent_chain.first()),
        dev.parent_chain.len() == 0 ==> topology::cut_of(dev) is None,
{
    assert((seq![b] + dev.parent_chain)[0] == b);
}

/// Nothing but the bridges above a device decides where it is cut.
pub proof fn law_cut_point_depends_on_bridges(a: DeviceView, b: DeviceView)
    requires
        a.parent_chain == b.parent_chain,
    ensures
        topology::cut_of(a) == topology::cut_of(b),
{
}

/// The action for a GPU cuts the tree at the root-most bridge above it.
pub proof fn law_action_cuts_at_root_most(mode: plan::Mode, p: plan::ProbeView)
    requires
        plan::action_of(mode, p) is Ok,
    ensures
        p.device.parent_chain.len() > 0,
        plan::action_of(mode, p)->Ok_0.cut_point == p.device.parent_chain.first(),
{
}

/// Groups of one more device: where the device is below the cut point, it is the last member of
/// the group, and otherwise it is no member.
pub proof fn law_members_of_group(gpus: Seq<DeviceView>, d: DeviceView, cut: Bdf)
    ensures
        topology::below(Seq::empty(), cut) == Seq::<Bdf>::empty(),
        d.parent_chain.len() > 0 && d.parent_chain.first() == cut ==> topology::below(
            gpus.push(d),
            cut,
        ) == topology::below(gpus, cut).push(d.bdf),
        d.parent_chain.len() == 0 || d.parent_chain.first() != cut ==> topology::below(
            gpus.push(d),
            cut,
        ) == topology::below(gpus, cut),
{
    assert(gpus.push(d).drop_last() =~= gpus);
    assert(gpus.push(d).last() == d);
    assert(topology::below(gpus, cut).push(d.bdf) =~= topology::below(gpus, cut) + seq![d.bdf]);
}

/// There is one group for each bridge at which a GPU is cut, and for no other bridge; the groups
/// are in ascending order of their bridges, and the members of each are the GPUs that are cut at
/// its bridge.
pub proof fn law_groups(
    gpus: Seq<DeviceView>,
    groups: Seq<topology::CutGroupView>,
    g: int,
    h: int,
    i: int,
)
    requires
        topology::grouped(gpus, groups),
    ensures
        0 <= i < gpus.len() && gpus[i].parent_chain.len() > 0 ==> exists|k: int|
            0 <= k < groups.len() && (#[trigger] groups[k]).cut == gpus[i].parent_chain.first()
                && groups[k].members.contains(gpus[i].bdf),
        0 <= g < groups.len() ==> exists|k: int|
            0 <= k < gpus.len() && (#[trigger] gpus[k]).parent_chain.len() > 0
                && gpus[k].parent_chain.first() == groups[g].cut,
        0 <= g < groups.len() && 0 <= i < groups[g].members.len() ==> exists|k: int|
            0 <= k < gpus.len() && (#[trigger] gpus[k]).parent_chain.len() > 0
                && gpus[k].parent_chain.first() == groups[g].cut && gpus[k].bdf
                == groups[g].members[i],
        0 <= g < h < groups.len() ==> {
            let (a, b) = (groups[g].cut, groups[h].cut);
            ||| a.domain < b.domain
            ||| a.domain == b.domain && a.bus < b.bus
            ||| a.domain == b.domain && a.bus == b.bus && a.device < b.device
            ||| a.domain == b.domain && a.bus == b.bus && a.device == b.device && a.function
                < b.function
        },
        0 <= g < groups.len() ==> groups[g].members == topology::below(gpus, groups[g].cut),
{
    let cuts = topology::group_cuts(groups);
    if 0 <= i < gpus.len() && gpus[i].parent_chain.len() > 0 {
        topology::law_groups_hold_all(gpus, groups, i);
    }
    if 0 <= g < groups.len() {
        let c = groups[g].cut;
        assert(cuts[g] == c);
        assert(cuts.contains(c));
        assert(topology::cuts(gpus).contains(c));
        lemma_cut_of_some(gpus, c);
        if 0 <= i < groups[g].members.len() {
            assert(topology::below(gpus, c).contains(groups[g].members[i]));
            lemma_member_of_some(gpus, c, groups[g].members[i]);
        }
        if g < h < groups.len() {
            assert(cuts[h] == groups[h].cut);
            assert(cuts[g].rank() < cuts[h].rank());
            crate::pci::law_bdf_order(groups[g].cut, groups[h].cut);
        }
    }
}

proof fn lemma_cut_of_some(gpus: Seq<DeviceView>, c: Bdf)
    requires
        topology::cuts(gpus).contains(c),
    ensures
        exists|k: int|
            0 <= k < gpus.len() && (#[trigger] gpus[k]).parent_chain.len() > 0
                && gpus[k].parent_chain.first() == c,
{
    gpus.lemma_filter_map_contains(|d: DeviceView| topology::cut_of(d), c);
    let d = choose|d: DeviceView| #[trigger] gpus.contains(d) && topology::cut_of(d) == Some(c);
    let k = choose|k: int| 0 <= k < gpus.len() && gpus[k] == d;
    assert(gpus[k].parent_chain.first() == c);
}

proof fn lemma_member_of_some(gpus: Seq<DeviceView>, c: Bdf, m: Bdf)
    requires
        topology::below(gpus, c).contains(m),
    ensures
        exists|k: int|
            0 <= k < gpus.len() && (#[trigger] gpus[k]).parent_chain.len() > 0
                && gpus[k].parent_chain.first() == c && gpus[k].bdf == m,
{
    let f = |d: DeviceView|
        if topology::cut_of(d) == Some(c) {
            Some(d.bdf)
        } else {
            None
        };
    gpus.lemma_filter_map_contains(f, m);
    let d = choose|d: DeviceView| #[trigger] gpus.contains(d) && f(d) == Some(m);
    let k = choose|k: int| 0 <= k < gpus.len() && gpus[k] == d;
    assert(gpus[k].parent_chain.first() == c);
}

} // verus!
