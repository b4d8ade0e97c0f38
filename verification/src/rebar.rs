//! The Resizable BAR extended capability: finding it, reading it, and writing a new size.
//!
//! Config space is read one dword at a time by the caller. The functions here are given the dwords
//! read so far and say which one to read next, or what the outcome is.

use vstd::arithmetic::power2;
use vstd::prelude::*;

use crate::number::{self, dec_text, hex_padded_text};
use crate::text::{self, join, owned};

verus! {

/// Where the list of extended capabilities starts.
pub const PCI_EXT_CAP_START: usize = 0x100;

/// The identifier of the Resizable BAR capability.
pub const PCI_EXT_CAP_ID_REBAR: u16 = 0x0015;

/// How many links of the capability list are followed at most. The headers of a list that has no
/// cycle lie at different offsets, of which there are 0xF00, so that no such list has more links.
pub const MAX_LINKS: usize = 0xEFF;

// ---------------------------------------------------------------- the capability list

/// The capability identifier in a header: its low sixteen bits.
pub open spec fn header_id(header: u32) -> int {
    header as int % 0x1_0000
}

/// The offset of the next capability in a header: its high twelve bits.
pub open spec fn header_next(header: u32) -> int {
    header as int / 0x10_0000
}

/// The header that a device without extended capabilities answers with.
pub open spec fn no_header(header: u32) -> bool {
    header == 0 || header == 0xFFFF_FFFF
}

/// What to do next on the way through the capability list.
#[derive(Clone, Copy, Debug, PartialEq, Eq, Structural)]
pub enum CapStep {
    /// Read the dword at this offset.
    Read(usize),
    /// The walk is over: the offset of the capability, where it was found.
    Done(Option<usize>),
}

/// The walk at the header of offset `pos`, after `links` links, on the headers that are read from
/// there on; with it, the dwords that the walk leaves over.
pub open spec fn walk(cap_id: u16, pos: int, links: int, replies: Seq<u32>) -> (CapStep, Seq<u32>)
    decreases replies.len(),
{
    if replies.len() == 0 {
        (CapStep::Read(pos as usize), replies)
    } else {
        let header = replies[0];
        let rest = replies.skip(1);
        if no_header(header) {
            (CapStep::Done(None), rest)
        } else if header_id(header) == cap_id {
            (CapStep::Done(Some(pos as usize)), rest)
        } else if header_next(header) < PCI_EXT_CAP_START || links == MAX_LINKS {
            (CapStep::Done(None), rest)
        } else {
            walk(cap_id, header_next(header), links + 1, rest)
        }
    }
}

/// The walk from the start of the list.
pub open spec fn walk_from_start(cap_id: u16, replies: Seq<u32>) -> (CapStep, Seq<u32>) {
    walk(cap_id, PCI_EXT_CAP_START as int, 0, replies)
}

/// Splits a capability header into identifier and next offset.
fn header_fields(header: u32) -> (r: (u16, usize))
    ensures
        r.0 == header_id(header),
        r.1 == header_next(header),
        r.1 < 0x1000,
{
    assert(header & 0xFFFF == header % 0x1_0000) by (bit_vector);
    assert((header >> 20) & 0xFFF == header / 0x10_0000) by (bit_vector);
    ((header & 0xFFFF) as u16, ((header >> 20) & 0xFFF) as usize)
}

/// The walk over `replies`, and how many of them it used.
fn walk_replies(cap_id: u16, replies: &Vec<u32>) -> (r: (CapStep, usize))
    ensures
        r.1 <= replies.len(),
        walk_from_start(cap_id, replies@) == (r.0, replies@.skip(r.1 as int)),
        r.0 matches CapStep::Done(Some(pos)) ==> pos < 0x1000,
{
    let mut pos: usize = PCI_EXT_CAP_START;
    let mut links: usize = 0;
    let mut i: usize = 0;
    assert(replies@.skip(0) =~= replies@);
    while i < replies.len()
        invariant
            i <= replies.len(),
            links <= MAX_LINKS,
            pos < 0x1000,
            walk_from_start(cap_id, replies@) == walk(
                cap_id,
                pos as int,
                links as int,
                replies@.skip(i as int),
            ),
        decreases replies.len() - i,
    {
        let header = replies[i];
        assert(replies@.skip(i as int)[0] == header);
        assert(replies@.skip(i as int).skip(1) =~= replies@.skip(i + 1));
        i += 1;
        if header == 0 || header == 0xFFFF_FFFF {
            return (CapStep::Done(None), i);
        }
        let (id, next) = header_fields(header);
        if id == cap_id {
            return (CapStep::Done(Some(pos)), i);
        }
        if next < PCI_EXT_CAP_START || links == MAX_LINKS {
            return (CapStep::Done(None), i);
        }
        pos = next;
        links += 1;
    }
    (CapStep::Read(pos), i)
}

/// Walks the list of extended capabilities for the first one that has the identifier `cap_id`.
///
/// `replies` holds the headers read so far, each from the offset that the call before asked for.
/// A header of zeros or ones and a link below the start of the list end the walk; so do more links
/// than a list without a cycle can have.
pub fn find_ext_cap(cap_id: u16, replies: &Vec<u32>) -> (r: CapStep)
    ensures
        r == walk_from_start(cap_id, replies@).0,
{
    let (step, used) = walk_replies(cap_id, replies);
    step
}

/// A config space: the dword at every offset.
pub type ConfigSpace = spec_fn(int) -> u32;

/// The offset of the header that `k` links lead to from the start of the list, where there are as
/// many.
pub open spec fn header_offset(cfg: ConfigSpace, k: nat) -> Option<int>
    decreases k,
{
    if k == 0 {
        Some(PCI_EXT_CAP_START as int)
    } else {
        match header_offset(cfg, (k - 1) as nat) {
            None => None,
            Some(pos) => {
                let header = cfg(pos);
                if no_header(header) || header_next(header) < PCI_EXT_CAP_START {
                    None
                } else {
                    Some(header_next(header))
                }
            },
        }
    }
}

/// The header that `k` links lead to has the identifier `cap_id`.
pub open spec fn matches_at(cfg: ConfigSpace, cap_id: u16, k: nat) -> bool {
    match header_offset(cfg, k) {
        None => false,
        Some(pos) => !no_header(cfg(pos)) && header_id(cfg(pos)) == cap_id,
    }
}

/// The header that `k` links lead to is the first one with the identifier `cap_id`.
pub open spec fn first_match_at(cfg: ConfigSpace, cap_id: u16, k: nat) -> bool {
    &&& matches_at(cfg, cap_id, k)
    &&& forall|j: nat| j < k ==> !matches_at(cfg, cap_id, j)
}

/// The offset of the first capability `cap_id` in the list of a config space, where the list holds
/// one, however many links lead to it.
pub open spec fn ext_cap(cfg: ConfigSpace, cap_id: u16) -> Option<usize> {
    if exists|k: nat| first_match_at(cfg, cap_id, k) {
        let k = choose|k: nat| first_match_at(cfg, cap_id, k);
        Some(header_offset(cfg, k)->0 as usize)
    } else {
        None
    }
}

/// The first header with the identifier `cap_id` is the capability, whatever number of links leads
/// to it; and where there is no such header, there is no capability.
pub proof fn law_first_match_is_found(cfg: ConfigSpace, cap_id: u16, k: nat)
    ensures
        first_match_at(cfg, cap_id, k) ==> ext_cap(cfg, cap_id) == Some(
            header_offset(cfg, k)->0 as usize,
        ),
        matches_at(cfg, cap_id, k) ==> ext_cap(cfg, cap_id) is Some,
{
    if matches_at(cfg, cap_id, k) {
        lemma_some_first_match(cfg, cap_id, k);
        let f = choose|f: nat| first_match_at(cfg, cap_id, f);
        if first_match_at(cfg, cap_id, k) {
            if f < k {
                assert(matches_at(cfg, cap_id, f));
            } else if k < f {
                assert(matches_at(cfg, cap_id, k));
            }
        }
    }
}

proof fn lemma_some_first_match(cfg: ConfigSpace, cap_id: u16, k: nat)
    requires
        matches_at(cfg, cap_id, k),
    ensures
        exists|f: nat| first_match_at(cfg, cap_id, f),
    decreases k,
{
    if !first_match_at(cfg, cap_id, k) {
        let j = choose|j: nat| j < k && matches_at(cfg, cap_id, j);
        lemma_some_first_match(cfg, cap_id, j);
    }
}

/// The headers of the list lie in the extended space, and there is one before each.
proof fn lemma_header_offset(cfg: ConfigSpace, k: nat, j: nat)
    requires
        header_offset(cfg, k) is Some,
        j <= k,
    ensures
        header_offset(cfg, j) is Some,
        PCI_EXT_CAP_START <= header_offset(cfg, k)->0 < 0x1000,
    decreases k,
{
    if k > 0 {
        if j < k {
            lemma_header_offset(cfg, (k - 1) as nat, j);
        }
        assert(header_offset(cfg, (k - 1) as nat) is Some);
    }
}

/// From equal offsets on, the list goes on alike.
proof fn lemma_list_repeats(cfg: ConfigSpace, i: nat, j: nat, more: nat)
    requires
        header_offset(cfg, i) == header_offset(cfg, j),
    ensures
        header_offset(cfg, i + more) == header_offset(cfg, j + more),
    decreases more,
{
    if more > 0 {
        lemma_list_repeats(cfg, i, j, (more - 1) as nat);
        assert((i + more - 1) as nat == i + (more - 1) as nat);
        assert((j + more - 1) as nat == j + (more - 1) as nat);
    }
}

/// No more links lead to the first match than a list without a cycle can have: up to it, no offset
/// repeats.
proof fn lemma_first_match_is_near(cfg: ConfigSpace, cap_id: u16, k: nat)
    requires
        first_match_at(cfg, cap_id, k),
    ensures
        k <= MAX_LINKS,
{
    let offsets = Seq::new(k + 1, |i: int| header_offset(cfg, i as nat)->0);
    assert forall|i: int, j: int| 0 <= i < j < offsets.len() implies offsets[i] != offsets[j] by {
        lemma_header_offset(cfg, k, i as nat);
        lemma_header_offset(cfg, k, j as nat);
        if offsets[i] == offsets[j] {
            let more = (k - j) as nat;
            lemma_list_repeats(cfg, i as nat, j as nat, more);
            assert(j as nat + more == k);
            assert(matches_at(cfg, cap_id, i as nat + more));
        }
    }
    assert(offsets.no_duplicates());
    offsets.unique_seq_to_set();
    let range = vstd::set_lib::set_int_range(PCI_EXT_CAP_START as int, 0x1000);
    vstd::set_lib::lemma_int_range(PCI_EXT_CAP_START as int, 0x1000);
    assert forall|x: int| #[trigger] offsets.to_set().contains(x) implies range.contains(x) by {
        let i = choose|i: int| 0 <= i < offsets.len() && offsets[i] == x;
        lemma_header_offset(cfg, k, i as nat);
        lemma_header_offset(cfg, i as nat, i as nat);
    }
    vstd::set_lib::lemma_len_subset(offsets.to_set(), range);
}

/// The offset of the first capability `cap_id` in the list that continues at `pos`, where `left`
/// more links may be followed.
spec fn listed(cfg: ConfigSpace, cap_id: u16, pos: int, left: nat) -> Option<usize>
    decreases left,
{
    let header = cfg(pos);
    if no_header(header) {
        None
    } else if header_id(header) == cap_id {
        Some(pos as usize)
    } else if header_next(header) < PCI_EXT_CAP_START || left == 0 {
        None
    } else {
        listed(cfg, cap_id, header_next(header), (left - 1) as nat)
    }
}

proof fn lemma_listed_from(cfg: ConfigSpace, cap_id: u16, k: nat, left: nat)
    requires
        header_offset(cfg, k) is Some,
        forall|j: nat| j < k ==> !matches_at(cfg, cap_id, j),
    ensures
        match listed(cfg, cap_id, header_offset(cfg, k)->0, left) {
            Some(at) => exists|m: nat|
                first_match_at(cfg, cap_id, m) && header_offset(cfg, m)->0 as usize == at,
            None => forall|m: nat| m <= k + left ==> !first_match_at(cfg, cap_id, m),
        },
    decreases left,
{
    let pos = header_offset(cfg, k)->0;
    let header = cfg(pos);
    let next = header_offset(cfg, k + 1);
    assert((k + 1 - 1) as nat == k);
    if matches_at(cfg, cap_id, k) {
        assert(first_match_at(cfg, cap_id, k));
    } else if next is Some && left > 0 {
        assert forall|j: nat| j < k + 1 implies !matches_at(cfg, cap_id, j) by {
            if j < k {
                assert(!matches_at(cfg, cap_id, j));
            }
        }
        lemma_listed_from(cfg, cap_id, k + 1, (left - 1) as nat);
    } else {
        assert forall|m: nat| m <= k + left implies !first_match_at(cfg, cap_id, m) by {
            if m < k {
                assert(!matches_at(cfg, cap_id, m));
            } else if m > k && header_offset(cfg, m) is Some {
                lemma_header_offset(cfg, m, k + 1);
            }
        }
    }
}

/// Following `MAX_LINKS` links finds whatever the list holds.
proof fn lemma_listed_is_ext_cap(cfg: ConfigSpace, cap_id: u16)
    ensures
        listed(cfg, cap_id, PCI_EXT_CAP_START as int, MAX_LINKS as nat) == ext_cap(cfg, cap_id),
{
    lemma_listed_from(cfg, cap_id, 0, MAX_LINKS as nat);
    match listed(cfg, cap_id, PCI_EXT_CAP_START as int, MAX_LINKS as nat) {
        Some(at) => {
            let m = choose|m: nat|
                first_match_at(cfg, cap_id, m) && header_offset(cfg, m)->0 as usize == at;
            law_first_match_is_found(cfg, cap_id, m);
        },
        None => {
            if exists|k: nat| first_match_at(cfg, cap_id, k) {
                let k = choose|k: nat| first_match_at(cfg, cap_id, k);
                lemma_first_match_is_near(cfg, cap_id, k);
            }
        },
    }
}

/// Every header is what the config space holds at the offset that the headers before it lead to.
pub open spec fn walk_reads(cfg: ConfigSpace, cap_id: u16, pos: int, links: int, replies: Seq<
    u32,
>) -> bool {
    forall|i: int|
        0 <= i < replies.len() ==> match #[trigger] walk(cap_id, pos, links, replies.take(i)).0 {
            CapStep::Read(at) => replies[i] == cfg(at as int),
            CapStep::Done(_) => false,
        }
}

proof fn lemma_walk(cfg: ConfigSpace, cap_id: u16, pos: int, links: int, replies: Seq<u32>)
    requires
        PCI_EXT_CAP_START <= pos < 0x1000,
        0 <= links <= MAX_LINKS,
        walk_reads(cfg, cap_id, pos, links, replies),
    ensures
        match walk(cap_id, pos, links, replies).0 {
            CapStep::Read(at) => {
                &&& PCI_EXT_CAP_START <= at < 0x1000
                &&& replies.len() <= MAX_LINKS - links
            },
            CapStep::Done(found) => {
                &&& found == listed(cfg, cap_id, pos, (MAX_LINKS - links) as nat)
                &&& walk(cap_id, pos, links, replies).1 == Seq::<u32>::empty()
            },
        },
    decreases replies.len(),
{
    if replies.len() > 0 {
        assert(walk(cap_id, pos, links, replies.take(0)).0 == CapStep::Read(pos as usize));
        let header = replies[0];
        let rest = replies.skip(1);
        assert(header == cfg(pos));
        let over = no_header(header) || header_id(header) == cap_id || header_next(header)
            < PCI_EXT_CAP_START || links == MAX_LINKS;
        if over {
            if replies.len() > 1 {
                assert(replies.take(1)[0] == header);
                assert(walk(cap_id, pos, links, replies.take(1)).0 is Done);
            }
            assert(rest =~= seq![]);
        } else {
            let next = header_next(header);
            assert forall|i: int| 0 <= i < rest.len() implies match #[trigger] walk(
                cap_id,
                next,
                links + 1,
                rest.take(i),
            ).0 {
                CapStep::Read(at) => rest[i] == cfg(at as int),
                CapStep::Done(_) => false,
            } by {
                assert(replies.take(i + 1)[0] == header);
                assert(replies.take(i + 1).skip(1) =~= rest.take(i));
                assert(walk(cap_id, pos, links, replies.take(i + 1)).0 == walk(
                    cap_id,
                    next,
                    links + 1,
                    rest.take(i),
                ).0);
            }
            lemma_walk(cfg, cap_id, next, links + 1, rest);
        }
    }
}

/// On any config space the walk asks for offsets of the extended space only, ends after at most as
/// many reads as there are offsets, and ends with the capability that the list holds.
pub proof fn law_find_ext_cap(cfg: ConfigSpace, cap_id: u16, replies: Seq<u32>)
    requires
        walk_reads(cfg, cap_id, PCI_EXT_CAP_START as int, 0, replies),
    ensures
        match walk_from_start(cap_id, replies).0 {
            CapStep::Read(at) => PCI_EXT_CAP_START <= at < 0x1000 && replies.len() < 0xF00,
            CapStep::Done(found) => found == ext_cap(cfg, cap_id),
        },
{
    lemma_walk(cfg, cap_id, PCI_EXT_CAP_START as int, 0, replies);
    lemma_listed_is_ext_cap(cfg, cap_id);
}

/// A capability that is found lies in the extended space and has the wanted identifier.
pub proof fn law_found_cap_matches(cfg: ConfigSpace, cap_id: u16)
    ensures
        ext_cap(cfg, cap_id) matches Some(at) ==> {
            &&& PCI_EXT_CAP_START <= at < 0x1000
            &&& header_id(cfg(at as int)) == cap_id
        },
{
    if exists|k: nat| first_match_at(cfg, cap_id, k) {
        let k = choose|k: nat| first_match_at(cfg, cap_id, k);
        lemma_header_offset(cfg, k, k);
    }
}

// ---------------------------------------------------------------- the capability itself

/// One resizable BAR.
#[derive(Clone, Copy, Debug, PartialEq, Eq, Structural)]
pub struct RebarEntry {
    /// Which BAR the entry controls: 0 to 5.
    pub bar_index: u8,
    /// The current size as a size index: the BAR has two to the power of 20 plus the index bytes.
    pub current_size_index: u8,
    /// The supported sizes: bit `i` is set where size index `i` is supported.
    pub supported_sizes_mask: u32,
}

/// The Resizable BAR capability of a device.
#[derive(Debug)]
pub struct Rebar {
    pub cap_offset: usize,
    pub entries: Vec<RebarEntry>,
}

/// The contents of a [`Rebar`].
#[verifier::ext_equal]
pub struct RebarView {
    pub cap_offset: usize,
    pub entries: Seq<RebarEntry>,
}

impl View for Rebar {
    type V = RebarView;

    open spec fn view(&self) -> RebarView {
        RebarView { cap_offset: self.cap_offset, entries: self.entries@ }
    }
}

impl Clone for Rebar {
    fn clone(&self) -> (r: Self)
        ensures
            r@ == self@,
    {
        let mut entries: Vec<RebarEntry> = Vec::new();
        let mut i: usize = 0;
        while i < self.entries.len()
            invariant
                i <= self.entries.len(),
                entries@ == self.entries@.take(i as int),
            decreases self.entries.len() - i,
        {
            entries.push(self.entries[i]);
            i += 1;
            assert(self.entries@.take(i as int) =~= self.entries@.take(i - 1).push(
                self.entries@[i - 1],
            ));
        }
        assert(self.entries@.take(i as int) =~= self.entries@);
        Rebar { cap_offset: self.cap_offset, entries }
    }
}

impl RebarEntry {
    /// Size index `i` is supported.
    pub open spec fn has(self, i: int) -> bool {
        0 <= i < 32 && self.supported_sizes_mask as int / power2::pow2(i as nat) as int % 2 == 1
    }

    /// The supported size indices below `n`, in ascending order.
    pub open spec fn supported_below(self, n: int) -> Seq<u8>
        decreases n,
    {
        if n <= 0 {
            seq![]
        } else if self.has(n - 1) {
            self.supported_below(n - 1).push((n - 1) as u8)
        } else {
            self.supported_below(n - 1)
        }
    }

    /// Whether the BAR can have the size of `size_index`.
    pub fn supports(&self, size_index: u8) -> (r: bool)
        ensures
            r == self.has(size_index as int),
    {
        if size_index >= 32 {
            return false;
        }
        let mask = self.supported_sizes_mask;
        let shift = size_index as u32;
        let q = mask >> shift;
        proof {
            vstd::bits::lemma_u32_shr_is_div(mask, shift);
            assert(q & 1 == q % 2) by (bit_vector);
        }
        q & 1 != 0
    }

    /// The supported size indices, in ascending order.
    pub fn supported_indices(&self) -> (r: Vec<u8>)
        ensures
            r@ == self.supported_below(28),
    {
        let mut r: Vec<u8> = Vec::new();
        let mut i: u8 = 0;
        while i < 28
            invariant
                i <= 28,
                r@ == self.supported_below(i as int),
            decreases 28 - i,
        {
            if self.supports(i) {
                r.push(i);
            }
            i += 1;
        }
        r
    }

    /// The largest supported size index.
    pub open spec fn largest(self) -> Option<u8> {
        let all = self.supported_below(28);
        if all.len() > 0 {
            Some(all.last())
        } else {
            None
        }
    }

    /// The largest supported size index.
    pub fn largest_supported(&self) -> (r: Option<u8>)
        ensures
            r == self.largest(),
            match r {
                Some(i) => i < 28 && self.has(i as int) && forall|j: int|
                    i < j < 28 ==> !self.has(j),
                None => forall|j: int| 0 <= j < 28 ==> !self.has(j),
            },
    {
        let mut i: u8 = 28;
        while i > 0
            invariant
                i <= 28,
                forall|j: int| i <= j < 28 ==> !self.has(j),
                self.supported_below(28) == self.supported_below(i as int),
            decreases i,
        {
            i -= 1;
            if self.supports(i) {
                return Some(i);
            }
        }
        None
    }
}

/// The size indices below `n` that are listed are the supported ones, in ascending order.
pub proof fn lemma_supported_below(e: RebarEntry, n: int)
    requires
        0 <= n <= 28,
    ensures
        forall|i: int|
            0 <= i < e.supported_below(n).len() ==> {
                let x = #[trigger] e.supported_below(n)[i];
                x < n && e.has(x as int)
            },
        forall|i: int, j: int|
            0 <= i < j < e.supported_below(n).len() ==> e.supported_below(n)[i]
                < e.supported_below(n)[j],
        forall|x: u8| x < n && e.has(x as int) ==> e.supported_below(n).contains(x),
    decreases n,
{
    if n > 0 {
        lemma_supported_below(e, n - 1);
        let s = e.supported_below(n - 1);
        let t = e.supported_below(n);
        assert forall|x: u8| x < n && e.has(x as int) implies t.contains(x) by {
            if x == n - 1 {
                assert(t[s.len() as int] == x);
            } else {
                assert(s.contains(x));
                let i = choose|i: int| 0 <= i < s.len() && s[i] == x;
                assert(t[i] == x);
            }
        }
    }
}

/// The listed size indices are the supported ones below 28, each once, in ascending order.
pub proof fn law_supported_indices(e: RebarEntry)
    ensures
        forall|i: int, j: int|
            0 <= i < j < e.supported_below(28).len() ==> e.supported_below(28)[i]
                < e.supported_below(28)[j],
        forall|x: u8|
            #![trigger e.supported_below(28).contains(x)]
            e.supported_below(28).contains(x) <==> x < 28 && e.has(x as int),
{
    lemma_supported_below(e, 28);
}

/// The number of entries, in the control register of the first one.
pub open spec fn entry_count(ctrl: u32) -> int {
    ctrl as int / 32 % 8
}

/// The size index in a control register.
pub open spec fn size_field(ctrl: u32) -> int {
    ctrl as int / 256 % 64
}

/// The entry that a capability and a control register describe.
pub open spec fn entry_of(cap: u32, ctrl: u32) -> RebarEntry {
    RebarEntry {
        bar_index: (ctrl as int % 8) as u8,
        current_size_index: size_field(ctrl) as u8,
        supported_sizes_mask: (cap as int / 16) as u32,
    }
}

/// An entry that was read from registers supports no size index beyond 27, and its current size
/// index is within the width of its field.
pub proof fn law_entry_ranges(cap: u32, ctrl: u32, i: int)
    ensures
        entry_of(cap, ctrl).current_size_index < 64,
        entry_of(cap, ctrl).has(i) ==> i < 28,
{
    let e = entry_of(cap, ctrl);
    if e.has(i) && i >= 28 {
        let mask = e.supported_sizes_mask as int;
        power2::lemma2_to64();
        if i > 28 {
            power2::lemma_pow2_strictly_increases(28, i as nat);
        }
        assert(power2::pow2(28) == 0x1000_0000);
        assert(mask < power2::pow2(i as nat));
        vstd::arithmetic::div_mod::lemma_basic_div(mask, power2::pow2(i as nat) as int);
    }
}

/// The `n` entries in pairs of capability and control registers.
pub open spec fn entries_of(regs: Seq<u32>, n: int) -> Seq<RebarEntry> {
    Seq::new(n as nat, |i: int| entry_of(regs[2 * i], regs[2 * i + 1]))
}

/// The first entry that names a BAR which no device has: the numbers 6 and 7 are reserved.
pub open spec fn reserved_entry(entries: Seq<RebarEntry>) -> Option<nat>
    decreases entries.len(),
{
    if entries.len() == 0 {
        None
    } else {
        match reserved_entry(entries.drop_last()) {
            Some(i) => Some(i),
            None => if entries.last().bar_index > 5 {
                Some((entries.len() - 1) as nat)
            } else {
                None
            },
        }
    }
}

/// The message for an entry that names a reserved BAR.
pub open spec fn reserved_text(i: nat, bar_index: u8) -> Seq<char> {
    "rebar entry "@ + number::dec(i) + " names reserved BAR "@ + number::dec(bar_index as nat)
}

/// The entries, or the message for the first of them that names a reserved BAR.
pub open spec fn checked_entries(entries: Seq<RebarEntry>) -> Result<Seq<RebarEntry>, Seq<char>> {
    match reserved_entry(entries) {
        Some(i) => Err(reserved_text(i, entries[i as int].bar_index)),
        None => Ok(entries),
    }
}

/// What to do next on the way to the contents of the capability.
#[derive(Debug)]
pub enum RebarStep {
    /// Read the dword at this offset.
    Read(usize),
    /// The capability, where the device has it.
    Done(Option<Rebar>),
    /// The capability is not valid; the message says why.
    Invalid(String),
}

/// The contents of a [`RebarStep`].
#[verifier::ext_equal]
pub enum RebarStepView {
    Read(usize),
    Done(Option<RebarView>),
    Invalid(Seq<char>),
}

impl View for RebarStep {
    type V = RebarStepView;

    open spec fn view(&self) -> RebarStepView {
        match self {
            RebarStep::Read(at) => RebarStepView::Read(*at),
            RebarStep::Done(Some(r)) => RebarStepView::Done(Some(r@)),
            RebarStep::Done(None) => RebarStepView::Done(None),
            RebarStep::Invalid(m) => RebarStepView::Invalid(m@),
        }
    }
}

/// The entries among `n` whose registers are both read.
pub open spec fn entries_read(regs: Seq<u32>, n: int) -> Seq<RebarEntry> {
    entries_of(regs, if regs.len() as int / 2 < n { regs.len() as int / 2 } else { n })
}

/// The registers of the capability at `pos` with `n` entries: two for each entry, capability
/// before control. The first entry that names a reserved BAR ends the scan.
pub open spec fn scan_entries(pos: int, n: int, regs: Seq<u32>) -> RebarStepView {
    let k = regs.len() as int;
    match checked_entries(entries_read(regs, n)) {
        Err(m) => RebarStepView::Invalid(m),
        Ok(entries) => if k < 2 * n {
            RebarStepView::Read((pos + 8 * (k / 2) + 4 + 4 * (k % 2)) as usize)
        } else {
            RebarStepView::Done(Some(RebarView { cap_offset: pos as usize, entries }))
        },
    }
}

/// The whole scan: the walk to the capability, the control register of the first entry, and then
/// the registers of each entry.
pub open spec fn scan(replies: Seq<u32>) -> RebarStepView {
    let (step, rest) = walk_from_start(PCI_EXT_CAP_ID_REBAR, replies);
    match step {
        CapStep::Read(at) => RebarStepView::Read(at),
        CapStep::Done(None) => RebarStepView::Done(None),
        CapStep::Done(Some(pos)) => if rest.len() == 0 {
            RebarStepView::Read((pos + 8) as usize)
        } else {
            scan_entries(pos as int, entry_count(rest[0]), rest.skip(1))
        },
    }
}

fn read_entry(cap: u32, ctrl: u32) -> (r: RebarEntry)
    ensures
        r == entry_of(cap, ctrl),
{
    assert(ctrl & 0x7 == ctrl % 8) by (bit_vector);
    assert((ctrl >> 8) & 0x3F == ctrl / 256 % 64) by (bit_vector);
    assert((cap >> 4) & 0x0FFF_FFFF == cap / 16) by (bit_vector);
    RebarEntry {
        bar_index: (ctrl & 0x7) as u8,
        current_size_index: ((ctrl >> 8) & 0x3F) as u8,
        supported_sizes_mask: (cap >> 4) & 0x0FFF_FFFF,
    }
}

/// Reads the Resizable BAR capability of a device.
///
/// `replies` holds the dwords read so far, each from the offset that the call before asked for.
pub fn read_rebar(replies: &Vec<u32>) -> (r: RebarStep)
    ensures
        r@ == scan(replies@),
        r matches RebarStep::Done(Some(reb)) ==> forall|i: int|
            0 <= i < reb@.entries.len() ==> (#[trigger] reb@.entries[i]).bar_index <= 5,
{
    let (step, used) = walk_replies(PCI_EXT_CAP_ID_REBAR, replies);
    let ghost rest = replies@.skip(used as int);
    let pos = match step {
        CapStep::Read(at) => return RebarStep::Read(at),
        CapStep::Done(None) => return RebarStep::Done(None),
        CapStep::Done(Some(pos)) => pos,
    };
    if used == replies.len() {
        return RebarStep::Read(pos + 8);
    }
    let ctrl0 = replies[used];
    assert(rest[0] == ctrl0);
    assert((ctrl0 >> 5) & 0x7 == ctrl0 / 32 % 8) by (bit_vector);
    let n = ((ctrl0 >> 5) & 0x7) as usize;
    let ghost regs = rest.skip(1);
    let first: usize = used + 1;
    let k: usize = replies.len() - first;
    assert(regs.len() == k);
    let count: usize = if k / 2 < n {
        k / 2
    } else {
        n
    };
    let mut entries: Vec<RebarEntry> = Vec::new();
    let mut i: usize = 0;
    assert(entries@ =~= entries_of(regs, 0));
    while i < count
        invariant
            i <= count <= 7,
            k == replies.len() - first,
            2 * count <= k,
            regs == replies@.skip(first as int),
            entries@ == entries_of(regs, i as int),
            reserved_entry(entries@) is None,
            scan(replies@) == scan_entries(pos as int, n as int, regs),
            entries_read(regs, n as int) == entries_of(regs, count as int),
        decreases count - i,
    {
        let cap = replies[first + 2 * i];
        let ctrl = replies[first + 2 * i + 1];
        assert(regs[2 * i] == cap && regs[2 * i + 1] == ctrl);
        let e = read_entry(cap, ctrl);
        entries.push(e);
        i += 1;
        assert(entries@ =~= entries_of(regs, i as int));
        assert(entries@.drop_last() =~= entries_of(regs, i - 1));
        if e.bar_index > 5 {
            proof {
                let all = entries_of(regs, count as int);
                assert(all.take(i as int) =~= entries@);
                lemma_reserved_stays(all, i as int);
            }
            let mut m = owned("rebar entry ");
            m.append(dec_text((i - 1) as u64).as_str());
            m.append(" names reserved BAR ");
            m.append(dec_text(e.bar_index as u64).as_str());
            return RebarStep::Invalid(m);
        }
    }
    if k < 2 * n {
        return RebarStep::Read(pos + 8 * (k / 2) + 4 + 4 * (k % 2));
    }
    proof {
        lemma_not_reserved(entries@);
    }
    RebarStep::Done(Some(Rebar { cap_offset: pos, entries }))
}

proof fn lemma_reserved_stays(entries: Seq<RebarEntry>, n: int)
    requires
        0 <= n <= entries.len(),
        reserved_entry(entries.take(n)) is Some,
    ensures
        reserved_entry(entries) == reserved_entry(entries.take(n)),
        reserved_entry(entries)->0 < n,
    decreases entries.len() - n,
{
    lemma_reserved_inside(entries.take(n));
    if n == entries.len() {
        assert(entries.take(n) =~= entries);
    } else {
        assert(entries.take(n + 1).drop_last() =~= entries.take(n));
        lemma_reserved_stays(entries, n + 1);
    }
}

proof fn lemma_reserved_inside(entries: Seq<RebarEntry>)
    ensures
        reserved_entry(entries) matches Some(i) ==> i < entries.len() && entries[i as int].bar_index
            > 5,
    decreases entries.len(),
{
    if entries.len() > 0 {
        lemma_reserved_inside(entries.drop_last());
    }
}

/// No entry is reserved where every entry names one of the BARs 0 to 5.
pub proof fn lemma_not_reserved(entries: Seq<RebarEntry>)
    ensures
        reserved_entry(entries) is None <==> forall|i: int|
            0 <= i < entries.len() ==> (#[trigger] entries[i]).bar_index <= 5,
    decreases entries.len(),
{
    lemma_reserved_inside(entries);
    if entries.len() > 0 {
        let front = entries.drop_last();
        lemma_not_reserved(front);
        if reserved_entry(entries) is None {
            assert forall|i: int| 0 <= i < entries.len() implies (
            #[trigger] entries[i]).bar_index <= 5 by {
                if i < front.len() {
                    assert(front[i].bar_index <= 5);
                }
            }
        }
    }
}

/// A scan that gives a capability gives one whose entries name the BARs 0 to 5.
pub proof fn law_bar_numbers(replies: Seq<u32>, i: int)
    ensures
        scan(replies) matches RebarStepView::Done(Some(r)) ==> (0 <= i < r.entries.len()
            ==> r.entries[i].bar_index <= 5),
{
    match scan(replies) {
        RebarStepView::Done(Some(r)) => lemma_not_reserved(r.entries),
        _ => {},
    }
}

/// The entries of the capability at `pos` in a config space.
pub open spec fn entries_at(cfg: ConfigSpace, pos: int) -> Seq<RebarEntry> {
    Seq::new(
        entry_count(cfg(pos + 8)) as nat,
        |i: int| entry_of(cfg(pos + 8 * i + 4), cfg(pos + 8 * i + 8)),
    )
}

/// The Resizable BAR capability of a config space, or the message for an entry that names a
/// reserved BAR.
pub open spec fn rebar_of(cfg: ConfigSpace) -> Result<Option<RebarView>, Seq<char>> {
    match ext_cap(cfg, PCI_EXT_CAP_ID_REBAR) {
        None => Ok(None),
        Some(pos) => match checked_entries(entries_at(cfg, pos as int)) {
            Err(m) => Err(m),
            Ok(entries) => Ok(Some(RebarView { cap_offset: pos, entries })),
        },
    }
}

/// Every dword is what the config space holds at the offset that the dwords before it lead to.
pub open spec fn scan_reads(cfg: ConfigSpace, replies: Seq<u32>) -> bool {
    forall|i: int|
        0 <= i < replies.len() ==> match #[trigger] scan(replies.take(i)) {
            RebarStepView::Read(at) => replies[i] == cfg(at as int),
            _ => false,
        }
}

/// On a prefix of its dwords the walk does what it does on all of them, as far as it gets.
proof fn lemma_walk_prefix(cap_id: u16, pos: int, links: int, replies: Seq<u32>, i: int)
    requires
        0 <= i <= replies.len(),
    ensures
        ({
            let (step, rest) = walk(cap_id, pos, links, replies);
            let used = replies.len() - rest.len();
            &&& 0 <= used <= replies.len()
            &&& rest == replies.skip(used)
            &&& step is Read ==> rest.len() == 0
            &&& step is Read || i < used ==> walk(cap_id, pos, links, replies.take(i)).0 is Read
            &&& step is Done && i >= used ==> walk(cap_id, pos, links, replies.take(i)) == (
                step,
                rest.take(i - used),
            )
        }),
    decreases replies.len(),
{
    let (step, rest) = walk(cap_id, pos, links, replies);
    if replies.len() == 0 {
        assert(replies.take(i) =~= replies);
        assert(replies.skip(0) =~= replies);
    } else {
        let header = replies[0];
        let tail = replies.skip(1);
        let over = no_header(header) || header_id(header) == cap_id || header_next(header)
            < PCI_EXT_CAP_START || links == MAX_LINKS;
        if i > 0 {
            assert(replies.take(i)[0] == header);
            assert(replies.take(i).skip(1) =~= tail.take(i - 1));
        }
        if !over {
            lemma_walk_prefix(
                cap_id,
                header_next(header),
                links + 1,
                tail,
                if i > 0 { i - 1 } else { 0 },
            );
            let used = tail.len() - rest.len();
            assert(tail.skip(used) =~= replies.skip(used + 1));
        }
    }
}

/// On any config space the scan asks for offsets from the extended space on, ends after at most 15
/// reads more than there are offsets, and ends with the capability that the config space holds.
pub proof fn law_read_rebar(cfg: ConfigSpace, replies: Seq<u32>)
    requires
        scan_reads(cfg, replies),
    ensures
        match scan(replies) {
            RebarStepView::Read(at) => PCI_EXT_CAP_START <= at < 0x1040 && replies.len() < 0xF0F,
            RebarStepView::Done(found) => rebar_of(cfg) == Ok::<Option<RebarView>, Seq<char>>(found),
            RebarStepView::Invalid(m) => rebar_of(cfg) == Err::<Option<RebarView>, Seq<char>>(m),
        },
{
    let id = PCI_EXT_CAP_ID_REBAR;
    let start = PCI_EXT_CAP_START as int;
    let (step, rest) = walk_from_start(id, replies);
    lemma_walk_prefix(id, start, 0, replies, 0);
    let used = replies.len() - rest.len();
    let w = replies.take(used);
    assert forall|i: int| 0 <= i < w.len() implies match #[trigger] walk(id, start, 0, w.take(i)).0 {
        CapStep::Read(at) => w[i] == cfg(at as int),
        CapStep::Done(_) => false,
    } by {
        lemma_walk_prefix(id, start, 0, replies, i);
        assert(w.take(i) =~= replies.take(i));
        assert(scan(replies.take(i)) is Read);
    }
    lemma_walk(cfg, id, start, 0, w);
    lemma_listed_is_ext_cap(cfg, id);
    lemma_walk_prefix(id, start, 0, replies, used);
    assert(rest.take(0) =~= seq![]);
    if step is Read {
        assert(w =~= replies);
    } else {
        assert(walk_from_start(id, w).0 == step);
        assert forall|j: int| 0 <= j <= rest.len() implies #[trigger] walk_from_start(
            id,
            replies.take(used + j),
        ) == (step, rest.take(j)) by {
            lemma_walk_prefix(id, start, 0, replies, used + j);
        }
        assert(w.len() <= 0xF00) by {
            if w.len() > 0 {
                let v = w.take(w.len() - 1);
                assert(v =~= replies.take(used - 1));
                lemma_walk_prefix(id, start, 0, replies, used - 1);
                assert forall|i: int| 0 <= i < v.len() implies match #[trigger] walk(
                    id,
                    start,
                    0,
                    v.take(i),
                ).0 {
                    CapStep::Read(at) => v[i] == cfg(at as int),
                    CapStep::Done(_) => false,
                } by {
                    assert(v.take(i) =~= w.take(i));
                }
                lemma_walk(cfg, id, start, 0, v);
            }
        }
        match step {
            CapStep::Done(Some(pos)) => {
                law_found_cap_matches(cfg, id);
                if rest.len() > 0 {
                    assert(walk_from_start(id, replies.take(used + 0)) == (step, rest.take(0)));
                    assert(scan(replies.take(used)) == RebarStepView::Read((pos + 8) as usize));
                    assert(replies[used] == rest[0]);
                    assert(rest[0] == cfg(pos + 8));
                    let n = entry_count(rest[0]);
                    let regs = rest.skip(1);
                    assert forall|k: int| 0 <= k < regs.len() implies k < 2 * n && #[trigger] regs[k]
                        == cfg(pos + 8 * (k / 2) + 4 + 4 * (k % 2)) by {
                        let j = k + 1;
                        assert(walk_from_start(id, replies.take(used + j)) == (step, rest.take(j)));
                        assert(rest.take(j).skip(1) =~= regs.take(k));
                        assert(rest.take(j)[0] == rest[0]);
                        assert(scan(replies.take(used + j)) is Read);
                        assert(replies[used + j] == rest[j]);
                    }
                    if regs.len() > 0 {
                        assert(regs[regs.len() - 1] == regs.last());
                    }
                    let e = entries_read(regs, n);
                    let f = entries_at(cfg, pos as int);
                    assert forall|i: int| 0 <= i < e.len() implies e[i] == f[i] by {
                        assert(regs[2 * i] == cfg(pos + 8 * i + 4));
                        assert(regs[2 * i + 1] == cfg(pos + 8 * i + 8));
                    }
                    assert(e =~= f.take(e.len() as int));
                    if reserved_entry(e) is Some {
                        lemma_reserved_stays(f, e.len() as int);
                    }
                    if regs.len() >= 2 * n {
                        assert(e =~= f);
                    }
                }
            },
            CapStep::Done(None) => {
                if rest.len() > 0 {
                    assert(walk_from_start(id, replies.take(used + 0)) == (step, rest.take(0)));
                    assert(scan(replies.take(used)) == RebarStepView::Done(None));
                }
            },
            CapStep::Read(_) => {},
        }
    }
}

// ---------------------------------------------------------------- writing a size

/// How far the writing of a size has come.
#[derive(Clone, Copy, Debug, PartialEq, Eq, Structural)]
pub enum WriteProgress {
    /// Nothing was done yet.
    Start,
    /// The control register was read, with this value.
    Current(u32),
    /// The new value was written.
    Written,
    /// The control register was read again, with this value.
    Readback(u32),
}

/// What to do next to write a size.
#[derive(Debug)]
pub enum WriteStep {
    /// Read the dword at this offset.
    Read(usize),
    /// Write the dword at this offset.
    Write {
        offset: usize,
        value: u32,
    },
    /// The device has taken the size.
    Done,
    /// The device reports another size; the message says so.
    Rejected(String),
}

/// The contents of a [`WriteStep`].
#[verifier::ext_equal]
pub enum WriteStepView {
    Read(usize),
    Write {
        offset: usize,
        value: u32,
    },
    Done,
    Rejected(Seq<char>),
}

impl View for WriteStep {
    type V = WriteStepView;

    open spec fn view(&self) -> WriteStepView {
        match self {
            WriteStep::Read(at) => WriteStepView::Read(*at),
            WriteStep::Write { offset, value } => WriteStepView::Write {
                offset: *offset,
                value: *value,
            },
            WriteStep::Done => WriteStepView::Done,
            WriteStep::Rejected(m) => WriteStepView::Rejected(m@),
        }
    }
}

/// The offset of the control register of an entry.
pub open spec fn ctrl_offset(cap_offset: usize, entry_index: u8) -> int {
    cap_offset + 8 + 8 * entry_index
}

/// A control register with another size index: bits 8 to 13 hold the low six bits of the index,
/// all others are as they were.
pub open spec fn with_size(ctrl: u32, size_index: u8) -> int {
    ctrl - size_field(ctrl) * 256 + (size_index as int % 64) * 256
}

/// The message for a size that the device did not take.
pub open spec fn rejection(wanted: u8, readback: u32) -> Seq<char> {
    "rebar write rejected: wrote size idx "@ + number::dec(wanted as nat)
        + " but device reports "@ + number::dec(size_field(readback) as nat) + " (ctrl=0x"@
        + number::hex_padded(readback as nat, 8) + ")"@
}

/// The steps of writing a size: read the control register, write it with the new size index, read
/// it again, and see that the device has taken the index.
pub open spec fn write_step(
    cap_offset: usize,
    entry_index: u8,
    size_index: u8,
    progress: WriteProgress,
) -> WriteStepView {
    let offset = ctrl_offset(cap_offset, entry_index) as usize;
    match progress {
        WriteProgress::Start => WriteStepView::Read(offset),
        WriteProgress::Current(ctrl) => WriteStepView::Write {
            offset,
            value: with_size(ctrl, size_index) as u32,
        },
        WriteProgress::Written => WriteStepView::Read(offset),
        WriteProgress::Readback(ctrl) => if size_field(ctrl) == size_index {
            WriteStepView::Done
        } else {
            WriteStepView::Rejected(rejection(size_index, ctrl))
        },
    }
}

/// The control register with a new size index.
fn set_size(ctrl: u32, size_index: u8) -> (r: u32)
    ensures
        r == with_size(ctrl, size_index),
{
    let idx = size_index as u32;
    let cleared = ctrl & !0x0000_3F00u32;
    let field = (idx & 0x3F) << 8;
    let r = cleared | field;
    assert(r == ctrl - (ctrl / 256 % 64) * 256 + (idx % 64) * 256) by (bit_vector)
        requires
            cleared == ctrl & !0x0000_3F00u32,
            field == (idx & 0x3F) << 8,
            r == cleared | field,
            idx < 256,
    ;
    r
}

/// Writes a new size index into the control register of an entry, and checks by reading it back
/// that the device has taken it.
///
/// `cap_offset` is where the capability starts. `entry_index` counts the entries of the
/// capability, and is not the number of a BAR.
pub fn write_size_index(
    cap_offset: usize,
    entry_index: u8,
    size_index: u8,
    progress: WriteProgress,
) -> (r: WriteStep)
    requires
        ctrl_offset(cap_offset, entry_index) <= usize::MAX,
    ensures
        r@ == write_step(cap_offset, entry_index, size_index, progress),
{
    let offset: usize = cap_offset + 8 + 8 * entry_index as usize;
    match progress {
        WriteProgress::Start => WriteStep::Read(offset),
        WriteProgress::Current(ctrl) => WriteStep::Write {
            offset,
            value: set_size(ctrl, size_index),
        },
        WriteProgress::Written => WriteStep::Read(offset),
        WriteProgress::Readback(ctrl) => {
            assert((ctrl >> 8) & 0x3F == ctrl / 256 % 64) by (bit_vector);
            let found = ((ctrl >> 8) & 0x3F) as u8;
            if found == size_index {
                return WriteStep::Done;
            }
            let mut m = owned("rebar write rejected: wrote size idx ");
            m.append(dec_text(size_index as u64).as_str());
            m.append(" but device reports ");
            m.append(dec_text(found as u64).as_str());
            m.append(" (ctrl=0x");
            m.append(hex_padded_text(ctrl as u64, 8).as_str());
            m.append(")");
            WriteStep::Rejected(m)
        },
    }
}

proof fn lemma_register_fields(v: int, hi: int, field: int, lo: int)
    requires
        v == hi * 0x4000 + field * 256 + lo,
        0 <= hi,
        0 <= field < 64,
        0 <= lo < 256,
    ensures
        v % 256 == lo,
        v / 256 % 64 == field,
        v / 0x4000 == hi,
        v / 32 % 8 == lo / 32,
{
    assert(v / 256 == hi * 64 + field);
    assert(v / 32 == hi * 512 + field * 8 + lo / 32);
}

proof fn lemma_split_register(v: int) -> (parts: (int, int, int))
    requires
        0 <= v <= u32::MAX,
    ensures
        parts.0 == v / 0x4000,
        parts.1 == v / 256 % 64,
        parts.2 == v % 256,
        v == parts.0 * 0x4000 + parts.1 * 256 + parts.2,
        0 <= parts.0 <= 0x3_ffff,
        0 <= parts.1 < 64,
        0 <= parts.2 < 256,
{
    let q = v / 256;
    assert(v == q * 256 + v % 256);
    assert(q == (q / 64) * 64 + q % 64);
    assert(q / 64 == v / 0x4000);
    (v / 0x4000, v / 256 % 64, v % 256)
}

proof fn lemma_with_size(ctrl: u32, size_index: u8)
    ensures
        0 <= with_size(ctrl, size_index) <= u32::MAX,
        with_size(ctrl, size_index) % 256 == ctrl as int % 256,
        with_size(ctrl, size_index) / 256 % 64 == size_index as int % 64,
        with_size(ctrl, size_index) / 0x4000 == ctrl as int / 0x4000,
        with_size(ctrl, size_index) / 32 % 8 == ctrl as int / 32 % 8,
{
    let (hi, f, lo) = lemma_split_register(ctrl as int);
    lemma_register_fields(ctrl as int, hi, f, lo);
    lemma_register_fields(with_size(ctrl, size_index), hi, size_index as int % 64, lo);
}

/// Writing a size index changes the size field and no other bit of the control register. The
/// register keeps the number of its BAR and the number of entries, and a device that stores what
/// is written is found to have taken the index, for every index that the field can hold.
pub proof fn law_write_size(cap_offset: usize, entry_index: u8, size_index: u8, ctrl: u32)
    requires
        ctrl_offset(cap_offset, entry_index) <= usize::MAX,
    ensures
        write_step(cap_offset, entry_index, size_index, WriteProgress::Current(ctrl)) matches
            WriteStepView::Write { offset, value } && {
            &&& offset == ctrl_offset(cap_offset, entry_index)
            &&& size_field(value) == size_index as int % 64
            &&& value as int % 256 == ctrl as int % 256
            &&& value as int / 0x4000 == ctrl as int / 0x4000
            &&& entry_count(value) == entry_count(ctrl)
            &&& (size_index < 64 <==> write_step(
                cap_offset,
                entry_index,
                size_index,
                WriteProgress::Readback(value),
            ) is Done)
        },
{
    lemma_with_size(ctrl, size_index);
}

/// A config space that holds `value` at `at`, and elsewhere what it held before.
pub open spec fn stored(cfg: ConfigSpace, at: int, value: u32) -> ConfigSpace {
    |offset: int|
        if offset == at {
            value
        } else {
            cfg(offset)
        }
}

/// A write that touches none of the headers up to the first match leaves the capability where it
/// is.
pub proof fn law_capability_stays(cfg: ConfigSpace, cap_id: u16, k: nat, at: int, value: u32)
    requires
        first_match_at(cfg, cap_id, k),
        forall|j: nat| j <= k ==> #[trigger] header_offset(cfg, j) != Some(at),
    ensures
        ext_cap(stored(cfg, at, value), cap_id) == ext_cap(cfg, cap_id),
{
    let after = stored(cfg, at, value);
    assert forall|j: nat| j <= k implies matches_at(after, cap_id, j) == matches_at(
        cfg,
        cap_id,
        j,
    ) by {
        lemma_same_headers(cfg, k, j, at, value);
        assert(header_offset(cfg, j) != Some(at));
    }
    lemma_same_headers(cfg, k, k, at, value);
    assert(first_match_at(after, cap_id, k)) by {
        assert(matches_at(after, cap_id, k));
        assert forall|j: nat| j < k implies !matches_at(after, cap_id, j) by {
            assert(!matches_at(cfg, cap_id, j));
        }
    }
    law_first_match_is_found(cfg, cap_id, k);
    law_first_match_is_found(after, cap_id, k);
}

proof fn lemma_same_headers(cfg: ConfigSpace, k: nat, j: nat, at: int, value: u32)
    requires
        j <= k,
        forall|i: nat| i <= k ==> #[trigger] header_offset(cfg, i) != Some(at),
    ensures
        header_offset(stored(cfg, at, value), j) == header_offset(cfg, j),
    decreases j,
{
    if j > 0 {
        lemma_same_headers(cfg, k, (j - 1) as nat, at, value);
        assert(header_offset(cfg, (j - 1) as nat) != Some(at));
    }
}

/// Reading the capability again after a size was written and taken gives the same capability, with
/// the new size index in that entry and nothing else changed. The register that was written must
/// not have served as a header on the way to the capability.
pub proof fn law_written_size_is_read(cfg: ConfigSpace, r: RebarView, i: u8, size_index: u8)
    requires
        rebar_of(cfg) == Ok::<Option<RebarView>, Seq<char>>(Some(r)),
        i < r.entries.len(),
        ({
            let at = ctrl_offset(r.cap_offset, i);
            let value = with_size(cfg(at), size_index) as u32;
            &&& write_step(r.cap_offset, i, size_index, WriteProgress::Readback(value)) is Done
            &&& ext_cap(stored(cfg, at, value), PCI_EXT_CAP_ID_REBAR) == ext_cap(
                cfg,
                PCI_EXT_CAP_ID_REBAR,
            )
        }),
    ensures
        ({
            let at = ctrl_offset(r.cap_offset, i);
            let after = stored(cfg, at, with_size(cfg(at), size_index) as u32);
            let e = RebarEntry { current_size_index: size_index, ..r.entries[i as int] };
            rebar_of(after) == Ok::<Option<RebarView>, Seq<char>>(
                Some(RebarView { entries: r.entries.update(i as int, e), ..r }),
            )
        }),
{
    let pos = r.cap_offset as int;
    let at = ctrl_offset(r.cap_offset, i);
    let value = with_size(cfg(at), size_index) as u32;
    let after = stored(cfg, at, value);
    lemma_with_size(cfg(at), size_index);
    let e = RebarEntry { current_size_index: size_index, ..r.entries[i as int] };
    let updated = r.entries.update(i as int, e);
    lemma_entries_after(cfg, pos, i as int, size_index);
    lemma_not_reserved(r.entries);
    assert forall|j: int| 0 <= j < updated.len() implies (#[trigger] updated[j]).bar_index <= 5 by {
        assert(r.entries[j].bar_index <= 5);
    }
    lemma_not_reserved(updated);
}

/// A control register with another size index describes the same entry with that index.
proof fn lemma_entry_with_size(cap: u32, ctrl: u32, size_index: u8)
    requires
        size_index < 64,
    ensures
        entry_of(cap, with_size(ctrl, size_index) as u32) == (RebarEntry {
            current_size_index: size_index,
            ..entry_of(cap, ctrl)
        }),
        entry_count(with_size(ctrl, size_index) as u32) == entry_count(ctrl),
{
    lemma_with_size(ctrl, size_index);
    let v = with_size(ctrl, size_index);
    let c = ctrl as int;
    assert(v % 8 == (v % 256) % 8);
    assert(c % 8 == (c % 256) % 8);
}

proof fn lemma_entries_after(cfg: ConfigSpace, pos: int, i: int, size_index: u8)
    requires
        0 <= i < entry_count(cfg(pos + 8)),
        size_index < 64,
    ensures
        ({
            let at = pos + 8 + 8 * i;
            let before = entries_at(cfg, pos);
            entries_at(stored(cfg, at, with_size(cfg(at), size_index) as u32), pos)
                == before.update(
                i,
                RebarEntry { current_size_index: size_index, ..before[i] },
            )
        }),
{
    let at = pos + 8 + 8 * i;
    let after = stored(cfg, at, with_size(cfg(at), size_index) as u32);
    let before = entries_at(cfg, pos);
    let wanted = before.update(i, RebarEntry { current_size_index: size_index, ..before[i] });
    lemma_entry_with_size(cfg(pos + 8 * i + 4), cfg(at), size_index);
    assert(entry_count(after(pos + 8)) == entry_count(cfg(pos + 8)));
    let now = entries_at(after, pos);
    assert(now.len() == wanted.len());
    assert forall|j: int| 0 <= j < wanted.len() implies now[j] == wanted[j] by {
        assert(after(pos + 8 * j + 4) == cfg(pos + 8 * j + 4));
        if j != i {
            assert(after(pos + 8 * j + 8) == cfg(pos + 8 * j + 8));
        }
    }
    assert(now =~= wanted);
}

// ---------------------------------------------------------------- sizes

/// The number of bytes for a size index: two to the power of 20 plus the index.
pub fn size_bytes(size_index: u8) -> (r: u64)
    requires
        size_index < 44,
    ensures
        r == power2::pow2((20 + size_index) as nat),
{
    let shift = 20 + size_index as u64;
    proof {
        power2::lemma2_to64();
        power2::lemma2_to64_rest();
        if shift < 63 {
            power2::lemma_pow2_strictly_increases(shift as nat, 63);
        }
        vstd::bits::lemma_u64_shl_is_mul(1, shift);
    }
    1u64 << shift
}

const KIB: u64 = 0x400;

const MIB: u64 = 0x10_0000;

const GIB: u64 = 0x4000_0000;

const TIB: u64 = 0x100_0000_0000;

/// A number of bytes in the largest binary unit that divides it; below a mebibyte, or where none
/// does, in whole kibibytes, rounded down; below a kibibyte in bytes.
pub open spec fn size_text(bytes: nat) -> Seq<char> {
    if bytes >= 0x100_0000_0000 && bytes % 0x100_0000_0000 == 0 {
        number::dec(bytes / 0x100_0000_0000) + " TiB"@
    } else if bytes >= 0x4000_0000 && bytes % 0x4000_0000 == 0 {
        number::dec(bytes / 0x4000_0000) + " GiB"@
    } else if bytes >= 0x10_0000 && bytes % 0x10_0000 == 0 {
        number::dec(bytes / 0x10_0000) + " MiB"@
    } else if bytes >= 0x400 {
        number::dec(bytes / 0x400) + " KiB"@
    } else {
        number::dec(bytes) + " B"@
    }
}

/// Writes a number of bytes for people.
pub fn format_size(bytes: u64) -> (r: String)
    ensures
        r@ == size_text(bytes as nat),
{
    if bytes >= TIB && bytes % TIB == 0 {
        let mut r = dec_text(bytes / TIB);
        r.append(" TiB");
        r
    } else if bytes >= GIB && bytes % GIB == 0 {
        let mut r = dec_text(bytes / GIB);
        r.append(" GiB");
        r
    } else if bytes >= MIB && bytes % MIB == 0 {
        let mut r = dec_text(bytes / MIB);
        r.append(" MiB");
        r
    } else if bytes >= KIB {
        let mut r = dec_text(bytes / KIB);
        r.append(" KiB");
        r
    } else {
        let mut r = dec_text(bytes);
        r.append(" B");
        r
    }
}

/// The size of a size index, for people.
pub open spec fn index_text(size_index: u8) -> Seq<char> {
    size_text(power2::pow2((20 + size_index) as nat))
}

/// Writes the size of a size index for people.
pub fn format_size_index(size_index: u8) -> (r: String)
    requires
        size_index < 44,
    ensures
        r@ == index_text(size_index),
{
    format_size(size_bytes(size_index))
}

/// Sizes of size indices are written exactly: in mebibytes below index 10, in gibibytes below
/// index 20, and in tebibytes from there on, as the power of two that is left over.
pub proof fn law_index_text(size_index: u8)
    requires
        size_index < 44,
    ensures
        index_text(size_index) == if size_index < 10 {
            number::dec(power2::pow2(size_index as nat)) + " MiB"@
        } else if size_index < 20 {
            number::dec(power2::pow2((size_index - 10) as nat)) + " GiB"@
        } else {
            number::dec(power2::pow2((size_index - 20) as nat)) + " TiB"@
        },
{
    power2::lemma2_to64();
    let e = size_index as nat;
    power2::lemma_pow2_pos(e);
    power2::lemma_pow2_adds(20, e);
    if e < 10 {
        power2::lemma_pow2_strictly_increases(e, 10);
        let m = power2::pow2(e);
        assert(power2::pow2(20 + e) == 0x10_0000 * m);
        assert(m < 0x400);
        assert((0x10_0000 * m) / 0x10_0000 == m);
    } else if e < 20 {
        let f = (e - 10) as nat;
        power2::lemma_pow2_adds(30, f);
        power2::lemma_pow2_pos(f);
        power2::lemma_pow2_strictly_increases(f, 10);
        let m = power2::pow2(f);
        assert(power2::pow2(20 + e) == 0x4000_0000 * m);
        assert(m < 0x400);
    } else {
        let f = (e - 20) as nat;
        power2::lemma_pow2_adds(40, f);
        power2::lemma_pow2_pos(f);
        power2::lemma2_to64_rest();
        let m = power2::pow2(f);
        assert(power2::pow2(20 + e) == 0x100_0000_0000 * m);
    }
}

/// The decimal numerals of a list of size indices.
pub open spec fn numerals(v: Seq<u8>) -> Seq<Seq<char>> {
    Seq::new(v.len(), |i: int| number::dec(v[i] as nat))
}

/// A list of size indices in brackets.
pub open spec fn list_text(v: Seq<u8>) -> Seq<char> {
    "["@ + text::joined(numerals(v), ", "@) + "]"@
}

/// Writes a list of size indices in brackets.
pub fn format_list(v: &Vec<u8>) -> (r: String)
    ensures
        r@ == list_text(v@),
{
    let mut parts: Vec<String> = Vec::new();
    let mut i: usize = 0;
    while i < v.len()
        invariant
            i <= v.len(),
            text::strings(parts@) == numerals(v@.take(i as int)),
        decreases v.len() - i,
    {
        let ghost before = parts@;
        parts.push(dec_text(v[i] as u64));
        i += 1;
        assert(text::strings(parts@) =~= text::strings(before).push(
            number::dec(v@[i - 1] as nat),
        ));
        assert(numerals(v@.take(i as int)) =~= numerals(v@.take(i - 1)).push(
            number::dec(v@[i - 1] as nat),
        ));
    }
    assert(v@.take(i as int) =~= v@);
    let mut r = owned("[");
    r.append(join(&parts, ", ").as_str());
    r.append("]");
    r
}

} // verus!
