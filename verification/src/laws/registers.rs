//! What the registers of the Resizable BAR capability say, and what is written to them.

use vstd::prelude::*;

use crate::laws::texts;
use crate::number;
use crate::rebar::{
    self, CapStep, ConfigSpace, RebarEntry, RebarView, WriteProgress, WriteStepView,
};
use crate::text;

verus! {

/// A header of the capability list: the identifier in its low sixteen bits, a version in the four
/// bits above, and in the high twelve bits the offset of the next header.
pub proof fn law_header_fields(header: u32, id: int, version: int, next: int)
    requires
        header == next * 0x10_0000 + version * 0x1_0000 + id,
        0 <= id < 0x1_0000,
        0 <= version < 16,
        0 <= next < 0x1000,
    ensures
        rebar::header_id(header) == id,
        rebar::header_next(header) == next,
{
}

/// The capability list of a config space starts at 0x100. Where its headers lie at `offsets`, each
/// but the last leads to the one after it, and the last is the first with the wanted identifier,
/// the capability is at the last offset.
pub proof fn law_listed_capability(cfg: ConfigSpace, cap_id: u16, offsets: Seq<int>)
    requires
        offsets.len() > 0,
        offsets[0] == 0x100,
        forall|i: int|
            0 <= i < offsets.len() - 1 ==> {
                &&& cfg(#[trigger] offsets[i]) != 0 && cfg(offsets[i]) != 0xffff_ffff
                &&& cfg(offsets[i]) as int % 0x1_0000 != cap_id
                &&& cfg(offsets[i]) as int / 0x10_0000 == offsets[i + 1]
                &&& 0x100 <= offsets[i + 1]
            },
        cfg(offsets.last()) != 0 && cfg(offsets.last()) != 0xffff_ffff,
        cfg(offsets.last()) as int % 0x1_0000 == cap_id,
    ensures
        rebar::ext_cap(cfg, cap_id) == Some(offsets.last() as usize),
{
    let n = (offsets.len() - 1) as nat;
    assert forall|k: nat| k <= n implies rebar::header_offset(cfg, k) == Some(
        offsets[k as int],
    ) by {
        lemma_headers(cfg, offsets, n, k);
    }
    assert(rebar::matches_at(cfg, cap_id, n));
    assert forall|j: nat| j < n implies !rebar::matches_at(cfg, cap_id, j) by {
        assert(rebar::header_offset(cfg, j) == Some(offsets[j as int]));
    }
    assert(rebar::first_match_at(cfg, cap_id, n));
    rebar::law_first_match_is_found(cfg, cap_id, n);
}

proof fn lemma_headers(cfg: ConfigSpace, offsets: Seq<int>, n: nat, k: nat)
    requires
        offsets.len() == n + 1,
        offsets[0] == 0x100,
        forall|i: int|
            0 <= i < n ==> {
                &&& cfg(#[trigger] offsets[i]) != 0 && cfg(offsets[i]) != 0xffff_ffff
                &&& cfg(offsets[i]) as int / 0x10_0000 == offsets[i + 1]
                &&& 0x100 <= offsets[i + 1]
            },
        k <= n,
    ensures
        rebar::header_offset(cfg, k) == Some(offsets[k as int]),
    decreases k,
{
    if k > 0 {
        lemma_headers(cfg, offsets, n, (k - 1) as nat);
        assert(cfg(offsets[k - 1]) as int / 0x10_0000 == offsets[k - 1 + 1]);
    }
}

/// Where the headers of the list lie at `offsets`, none of them has the wanted identifier, and the
/// last ends the list, there is no such capability. A header of zeros or of ones and one whose link
/// leads below 0x100 end the list.
pub proof fn law_unlisted_capability(cfg: ConfigSpace, cap_id: u16, offsets: Seq<int>)
    requires
        offsets.len() > 0,
        offsets[0] == 0x100,
        forall|i: int|
            0 <= i < offsets.len() - 1 ==> {
                &&& cfg(#[trigger] offsets[i]) != 0 && cfg(offsets[i]) != 0xffff_ffff
                &&& cfg(offsets[i]) as int % 0x1_0000 != cap_id
                &&& cfg(offsets[i]) as int / 0x10_0000 == offsets[i + 1]
                &&& 0x100 <= offsets[i + 1]
            },
        ({
            let last = cfg(offsets.last());
            ||| last == 0 || last == 0xffff_ffff
            ||| last as int % 0x1_0000 != cap_id && (last as int / 0x10_0000) < 0x100
        }),
    ensures
        rebar::ext_cap(cfg, cap_id) is None,
{
    let n = (offsets.len() - 1) as nat;
    assert forall|k: nat| !rebar::first_match_at(cfg, cap_id, k) by {
        if k <= n {
            lemma_headers(cfg, offsets, n, k);
        } else {
            lemma_headers(cfg, offsets, n, n);
            lemma_list_over(cfg, n, k);
        }
    }
}

proof fn lemma_list_over(cfg: ConfigSpace, n: nat, k: nat)
    requires
        n < k,
        rebar::header_offset(cfg, n) matches Some(pos) && (cfg(pos) == 0 || cfg(pos) == 0xffff_ffff
            || (cfg(pos) as int / 0x10_0000) < 0x100),
    ensures
        rebar::header_offset(cfg, k) is None,
    decreases k,
{
    if k > n + 1 {
        lemma_list_over(cfg, n, (k - 1) as nat);
    }
}

proof fn lemma_walk_goes_on(cap_id: u16, pos: int, links: int, replies: Seq<u32>, header: u32)
    requires
        0x100 <= pos < 0x1000,
        0 <= links,
        links + replies.len() < rebar::MAX_LINKS,
        rebar::walk(cap_id, pos, links, replies).0 is Read,
    ensures
        ({
            let at = rebar::walk(cap_id, pos, links, replies).0->Read_0;
            let next = header as int / 0x10_0000;
            rebar::walk(cap_id, pos, links, replies.push(header)).0 == if header == 0 || header
                == 0xffff_ffff {
                CapStep::Done(None)
            } else if header as int % 0x1_0000 == cap_id {
                CapStep::Done(Some(at))
            } else if next < 0x100 {
                CapStep::Done(None)
            } else {
                CapStep::Read(next as usize)
            }
        }),
    decreases replies.len(),
{
    let more = replies.push(header);
    if replies.len() == 0 {
        assert(more[0] == header);
        assert(more.skip(1) =~= Seq::<u32>::empty());
        assert(rebar::walk(
            cap_id,
            rebar::header_next(header),
            links + 1,
            more.skip(1),
        ).0 == CapStep::Read(rebar::header_next(header) as usize));
    } else {
        assert(more[0] == replies[0]);
        assert(more.skip(1) =~= replies.skip(1).push(header));
        lemma_walk_goes_on(
            cap_id,
            rebar::header_next(replies[0]),
            links + 1,
            replies.skip(1),
            header,
        );
    }
}

/// The walk through the list starts at 0x100 and takes one header at a time: one with the wanted
/// identifier ends it with the place it was read from, one that ends the list ends it in vain, and
/// every other leads on to the offset that it names.
pub proof fn law_walk_goes_on(cap_id: u16, replies: Seq<u32>, header: u32)
    requires
        replies.len() < 0xEFF,
        rebar::walk_from_start(cap_id, replies).0 is Read,
    ensures
        rebar::walk_from_start(cap_id, Seq::empty()).0 == CapStep::Read(0x100),
        ({
            let at = rebar::walk_from_start(cap_id, replies).0->Read_0;
            let next = header as int / 0x10_0000;
            rebar::walk_from_start(cap_id, replies.push(header)).0 == if header == 0 || header
                == 0xffff_ffff {
                CapStep::Done(None)
            } else if header as int % 0x1_0000 == cap_id {
                CapStep::Done(Some(at))
            } else if next < 0x100 {
                CapStep::Done(None)
            } else {
                CapStep::Read(next as usize)
            }
        }),
{
    lemma_walk_goes_on(cap_id, 0x100, 0, replies, header);
}

/// A control register: bits 0 to 2 hold the number of the BAR, bits 5 to 7 the number of entries,
/// and bits 8 to 13 the size index. A capability register: the bits from the fourth on are the
/// supported sizes.
pub proof fn law_entry_fields(
    cap: u32,
    ctrl: u32,
    high: int,
    size: int,
    count: int,
    between: int,
    bar: int,
    mask: int,
    low: int,
)
    requires
        ctrl == high * 0x4000 + size * 0x100 + count * 0x20 + between * 8 + bar,
        0 <= high,
        0 <= size < 64,
        0 <= count < 8,
        0 <= between < 4,
        0 <= bar < 8,
        cap == mask * 16 + low,
        0 <= low < 16,
    ensures
        rebar::entry_count(ctrl) == count,
        rebar::entry_of(cap, ctrl).bar_index == bar,
        rebar::entry_of(cap, ctrl).current_size_index == size,
        rebar::entry_of(cap, ctrl).supported_sizes_mask == mask,
{
    assert(ctrl as int / 32 == high * 512 + size * 8 + count);
    assert(ctrl as int / 256 == high * 64 + size);
}

/// A size index is supported exactly where its bit is set in the mask.
pub proof fn law_supported_bits(e: RebarEntry, i: u32)
    requires
        i < 32,
    ensures
        e.has(i as int) <==> e.supported_sizes_mask & (1u32 << i) != 0,
{
    let mask = e.supported_sizes_mask;
    vstd::bits::lemma_u32_shr_is_div(mask, i);
    assert((mask >> i) % 2 == 1 <==> mask & (1u32 << i) != 0) by (bit_vector)
        requires
            i < 32,
    ;
}

/// No size index from 32 on is supported.
pub proof fn law_unsupported_beyond_mask(e: RebarEntry, i: int)
    ensures
        i >= 32 || i < 0 ==> !e.has(i),
{
}

/// The largest supported size index is supported, and none above it up to 27 is; where there is
/// none, no size index up to 27 is supported.
pub proof fn law_largest(e: RebarEntry, j: int)
    ensures
        match e.largest() {
            Some(i) => i < 28 && e.has(i as int) && (i < j < 28 ==> !e.has(j)),
            None => 0 <= j < 28 ==> !e.has(j),
        },
{
    rebar::lemma_supported_below(e, 28);
    let all = e.supported_below(28);
    if all.len() > 0 {
        assert(all[all.len() - 1] == all.last());
    }
    if 0 <= j < 28 && e.has(j) {
        assert(all.contains(j as u8));
        let k = choose|k: int| 0 <= k < all.len() && all[k] == j as u8;
        if k < all.len() - 1 {
            assert(all[k] < all[all.len() - 1]);
        }
    }
}

/// The capability of a config space: it lies where the list says, has as many entries as the
/// control register of the first one says, and each entry is what its two registers say, four and
/// eight bytes behind the start of the capability and eight bytes apart. An entry that names BAR 6
/// or 7 makes the capability invalid.
pub proof fn law_capability(cfg: ConfigSpace, i: int)
    ensures
        match rebar::ext_cap(cfg, 0x15) {
            None => rebar::rebar_of(cfg) == Ok::<Option<RebarView>, Seq<char>>(None),
            Some(at) => {
                let count = cfg(at + 8) as int / 32 % 8;
                match rebar::rebar_of(cfg) {
                    Ok(Some(r)) => {
                        &&& r.cap_offset == at
                        &&& r.entries.len() == count
                        &&& 0 <= i < count ==> {
                            let e = r.entries[i];
                            let ctrl = cfg(at + 8 + 8 * i);
                            &&& e.bar_index == ctrl as int % 8
                            &&& e.bar_index <= 5
                            &&& e.current_size_index == ctrl as int / 256 % 64
                            &&& e.supported_sizes_mask == cfg(at + 4 + 8 * i) as int / 16
                        }
                    },
                    Ok(None) => false,
                    Err(_) => exists|k: int|
                        0 <= k < count && (#[trigger] cfg(at + 8 * k + 8)) as int % 8 > 5,
                }
            },
        },
{
    match rebar::ext_cap(cfg, 0x15) {
        None => {},
        Some(at) => {
            let es = rebar::entries_at(cfg, at as int);
            rebar::lemma_not_reserved(es);
            assert(at + 8 + 8 * i == at + 8 * i + 8);
            assert(at + 4 + 8 * i == at + 8 * i + 4);
            if rebar::reserved_entry(es) is Some {
                let k = choose|k: int| 0 <= k < es.len() && !((#[trigger] es[k]).bar_index <= 5);
                assert(cfg(at + 8 * k + 8) as int % 8 > 5);
            }
        },
    }
}

proof fn lemma_reserved_first(entries: Seq<RebarEntry>)
    ensures
        rebar::reserved_entry(entries) matches Some(k) ==> {
            &&& k < entries.len()
            &&& entries[k as int].bar_index > 5
            &&& forall|j: int| 0 <= j < k ==> (#[trigger] entries[j]).bar_index <= 5
        },
    decreases entries.len(),
{
    if entries.len() > 0 {
        let front = entries.drop_last();
        lemma_reserved_first(front);
        rebar::lemma_not_reserved(front);
        match rebar::reserved_entry(front) {
            Some(k) => {
                assert forall|j: int| 0 <= j < k implies (#[trigger] entries[j]).bar_index <= 5 by {
                    assert(front[j].bar_index <= 5);
                }
            },
            None => {
                assert forall|j: int| 0 <= j < front.len() implies (
                #[trigger] entries[j]).bar_index <= 5 by {
                    assert(front[j].bar_index <= 5);
                }
            },
        }
    }
}

/// The message on an invalid capability names the first entry that has a reserved BAR, and the BAR.
pub proof fn law_invalid_capability(cfg: ConfigSpace, m: Seq<char>)
    requires
        rebar::rebar_of(cfg) == Err::<Option<RebarView>, Seq<char>>(m),
    ensures
        rebar::ext_cap(cfg, 0x15) matches Some(at) && exists|k: int|
            {
                let bar = #[trigger] cfg(at + 8 * k + 8) as int % 8;
                &&& 0 <= k < cfg(at + 8) as int / 32 % 8
                &&& bar > 5
                &&& forall|j: int| 0 <= j < k ==> (#[trigger] cfg(at + 8 * j + 8)) as int % 8 <= 5
                &&& m == "rebar entry "@ + number::dec(k as nat) + " names reserved BAR "@
                    + number::dec(bar as nat)
            },
{
    let at = rebar::ext_cap(cfg, 0x15)->0;
    let es = rebar::entries_at(cfg, at as int);
    lemma_reserved_first(es);
    let k = rebar::reserved_entry(es)->0 as int;
    assert(es[k].bar_index == cfg(at + 8 * k + 8) as int % 8);
    assert forall|j: int| 0 <= j < k implies (#[trigger] cfg(at + 8 * j + 8)) as int % 8 <= 5 by {
        assert(es[j].bar_index <= 5);
    }
}

/// The steps of writing a size all go to the control register of the entry: it is read, written,
/// and read again. The size counts as taken exactly where bits 8 to 13 then hold its index;
/// otherwise the message names both.
pub proof fn law_write_steps(cap_offset: usize, entry_index: u8, size_index: u8, ctrl: u32)
    requires
        cap_offset + 8 + 8 * entry_index <= usize::MAX,
    ensures
        ({
            let at = (cap_offset + 8 + 8 * entry_index) as usize;
            let found = ctrl as int / 256 % 64;
            &&& rebar::write_step(cap_offset, entry_index, size_index, WriteProgress::Start)
                == WriteStepView::Read(at)
            &&& rebar::write_step(cap_offset, entry_index, size_index, WriteProgress::Written)
                == WriteStepView::Read(at)
            &&& rebar::write_step(
                cap_offset,
                entry_index,
                size_index,
                WriteProgress::Current(ctrl),
            ) matches WriteStepView::Write { offset, value } && {
                &&& offset == at
                &&& value as int / 256 % 64 == size_index as int % 64
                &&& value as int % 256 == ctrl as int % 256
                &&& value as int / 0x4000 == ctrl as int / 0x4000
            }
            &&& rebar::write_step(
                cap_offset,
                entry_index,
                size_index,
                WriteProgress::Readback(ctrl),
            ) == if found == size_index {
                WriteStepView::Done
            } else {
                WriteStepView::Rejected(
                    "rebar write rejected: wrote size idx "@ + number::dec(size_index as nat)
                        + " but device reports "@ + number::dec(found as nat) + " (ctrl=0x"@
                        + number::hex_padded(ctrl as nat, 8) + ")"@,
                )
            }
        }),
{
    rebar::law_write_size(cap_offset, entry_index, size_index, ctrl);
}

/// How sizes are written for people: whole tebibytes, gibibytes or mebibytes where the size is a
/// multiple of one, the largest unit first; other sizes in kibibytes, rounded down; and what is
/// below a kibibyte in bytes.
pub proof fn law_size_texts(n: nat, rest: nat)
    ensures
        n > 0 ==> rebar::size_text(n * 0x100_0000_0000) == number::dec(n) + " TiB"@,
        n % 0x400 != 0 ==> rebar::size_text(n * 0x4000_0000) == number::dec(n) + " GiB"@,
        n % 0x400 != 0 ==> rebar::size_text(n * 0x10_0000) == number::dec(n) + " MiB"@,
        n > 0 && rest < 0x400 && (n % 0x400 != 0 || rest != 0) ==> rebar::size_text(
            n * 0x400 + rest,
        ) == number::dec(n) + " KiB"@,
        rest < 0x400 ==> rebar::size_text(rest) == number::dec(rest) + " B"@,
{
    if n > 0 {
        assert(n * 0x100_0000_0000 >= 0x100_0000_0000);
        assert((n * 0x100_0000_0000) % 0x100_0000_0000 == 0);
        assert((n * 0x100_0000_0000) / 0x100_0000_0000 == n);
    }
    if n % 0x400 != 0 {
        assert((n * 0x4000_0000) % 0x4000_0000 == 0);
        assert((n * 0x4000_0000) / 0x4000_0000 == n);
        assert((n * 0x4000_0000) % 0x100_0000_0000 != 0);
        assert((n * 0x10_0000) % 0x10_0000 == 0);
        assert((n * 0x10_0000) / 0x10_0000 == n);
        assert((n * 0x10_0000) % 0x4000_0000 != 0);
        assert((n * 0x10_0000) % 0x100_0000_0000 != 0);
    }
    if n > 0 && rest < 0x400 && (n % 0x400 != 0 || rest != 0) {
        let b = n * 0x400 + rest;
        assert(b / 0x400 == n);
        assert(b % 0x10_0000 != 0);
        assert(b % 0x4000_0000 != 0);
        assert(b % 0x100_0000_0000 != 0);
    }
}

/// A list of size indices is written in brackets, in order, with commas between them.
pub proof fn law_size_lists(v: Seq<u8>, i: u8)
    ensures
        rebar::list_text(Seq::empty()) == "[]"@,
        rebar::list_text(seq![i]) == "["@ + number::dec(i as nat) + "]"@,
        v.len() > 0 ==> rebar::list_text(v.push(i)) == rebar::list_text(v).drop_last() + ", "@
            + number::dec(i as nat) + "]"@,
{
    reveal_strlit("[]");
    reveal_strlit("[");
    reveal_strlit("]");
    let none = Seq::<u8>::empty();
    assert(rebar::numerals(none) =~= Seq::<Seq<char>>::empty());
    assert(rebar::list_text(none) =~= "[]"@);
    let x = number::dec(i as nat);
    assert(rebar::numerals(seq![i]) =~= seq![x]);
    assert(rebar::numerals(v.push(i)) =~= rebar::numerals(v) + seq![x]);
    if v.len() > 0 {
        texts::law_joined(rebar::numerals(v), seq![x], x, ", "@);
        let a = text::joined(rebar::numerals(v), ", "@);
        assert(rebar::list_text(v).drop_last() =~= "["@ + a);
        assert(rebar::list_text(v.push(i)) =~= "["@ + a + ", "@ + x + "]"@);
    }
}

} // verus!
