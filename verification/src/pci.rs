//! PCI addresses, device resources, and device descriptions as sysfs gives them.

use vstd::prelude::*;

use crate::number::{self, hex_padded_text, hex_text, parse_numeral};
use crate::text::{self, chars_of, owned, split_once};

pub mod device;
pub mod res_flag;

pub use device::{
    companions, current_driver, enumerate, parse_names, read_device, Device, DeviceFiles,
};

verus! {

/// Where sysfs lists the PCI devices.
pub const SYSFS_PCI_DEVICES: &'static str = "/sys/bus/pci/devices";

/// A PCI address: domain, bus, device and function.
#[derive(Clone, Copy, PartialEq, Eq, Structural, Hash, Debug, PartialOrd, Ord)]
pub struct Bdf {
    pub domain: u16,
    pub bus: u8,
    pub device: u8,
    pub function: u8,
}

impl Bdf {
    /// The address as `DDDD:BB:DD.F`, in lower-case hexadecimal.
    pub open spec fn text(self) -> Seq<char> {
        number::hex_padded(self.domain as nat, 4) + ":"@ + number::hex_padded(self.bus as nat, 2)
            + ":"@ + number::hex_padded(self.device as nat, 2) + "."@ + number::hex(self.function as nat)
    }

    /// The address that `s` spells: four hexadecimal numerals, parted by `:`, `:` and `.`.
    pub open spec fn parsed(s: Seq<char>) -> Option<Bdf> {
        match text::cut_at(s, ':') {
            None => None,
            Some((domain, rest)) => match text::cut_at(rest, ':') {
                None => None,
                Some((bus, rest)) => match text::cut_at(rest, '.') {
                    None => None,
                    Some((device, function)) => match (
                        number::numeral_value(domain, 16, 0xffff),
                        number::numeral_value(bus, 16, 0xff),
                        number::numeral_value(device, 16, 0xff),
                        number::numeral_value(function, 16, 0xff),
                    ) {
                        (Ok(domain), Ok(bus), Ok(device), Ok(function)) => Some(
                            Bdf {
                                domain: domain as u16,
                                bus: bus as u8,
                                device: device as u8,
                                function: function as u8,
                            },
                        ),
                        _ => None,
                    },
                },
            },
        }
    }

    /// The rank of the address: addresses are ordered by domain, then bus, then device, then
    /// function.
    pub open spec fn rank(self) -> nat {
        self.domain as nat * 0x100_0000 + self.bus as nat * 0x1_0000 + self.device as nat * 0x100
            + self.function as nat
    }

    /// The directory of the device in sysfs.
    pub open spec fn dir(self) -> Seq<char> {
        SYSFS_PCI_DEVICES@ + "/"@ + self.text()
    }

    /// Reads an address from characters.
    pub fn parse_chars(s: &[char]) -> (r: Option<Bdf>)
        ensures
            r == Bdf::parsed(s@),
    {
        let (domain, rest) = match split_once(s, ':') {
            Some(p) => p,
            None => return None,
        };
        let (bus, rest) = match split_once(rest, ':') {
            Some(p) => p,
            None => return None,
        };
        let (device, function) = match split_once(rest, '.') {
            Some(p) => p,
            None => return None,
        };
        let domain = match parse_numeral(domain, 16, 0xffff) {
            Ok(v) => v,
            Err(_) => return None,
        };
        let bus = match parse_numeral(bus, 16, 0xff) {
            Ok(v) => v,
            Err(_) => return None,
        };
        let device = match parse_numeral(device, 16, 0xff) {
            Ok(v) => v,
            Err(_) => return None,
        };
        let function = match parse_numeral(function, 16, 0xff) {
            Ok(v) => v,
            Err(_) => return None,
        };
        Some(
            Bdf {
                domain: domain as u16,
                bus: bus as u8,
                device: device as u8,
                function: function as u8,
            },
        )
    }

    /// Reads an address written as `DDDD:BB:DD.F`.
    pub fn parse(s: &str) -> (r: Option<Self>)
        ensures
            r == Bdf::parsed(s@),
    {
        let cs = chars_of(s);
        Bdf::parse_chars(cs.as_slice())
    }

    /// Writes the address as `DDDD:BB:DD.F`.
    pub fn to_string(&self) -> (r: String)
        ensures
            r@ == self.text(),
    {
        let mut r = hex_padded_text(self.domain as u64, 4);
        r.append(":");
        r.append(hex_padded_text(self.bus as u64, 2).as_str());
        r.append(":");
        r.append(hex_padded_text(self.device as u64, 2).as_str());
        r.append(".");
        r.append(hex_text(self.function as u64).as_str());
        r
    }

    /// The directory of the device in sysfs.
    pub fn sysfs_dir(&self) -> (r: String)
        ensures
            r@ == self.dir(),
    {
        let mut r = owned(SYSFS_PCI_DEVICES);
        r.append("/");
        r.append(self.to_string().as_str());
        r
    }

    /// Whether `self` comes strictly before `other`.
    pub fn precedes(&self, other: &Bdf) -> (r: bool)
        ensures
            r == (self.rank() < other.rank()),
    {
        let a: u64 = self.domain as u64 * 0x100_0000 + self.bus as u64 * 0x1_0000 + self.device
            as u64 * 0x100 + self.function as u64;
        let b: u64 = other.domain as u64 * 0x100_0000 + other.bus as u64 * 0x1_0000 + other.device
            as u64 * 0x100 + other.function as u64;
        a < b
    }
}

/// The rank orders addresses field by field, and tells any two of them apart.
pub proof fn law_bdf_order(a: Bdf, b: Bdf)
    ensures
        a.rank() < b.rank() <==> {
            ||| a.domain < b.domain
            ||| a.domain == b.domain && a.bus < b.bus
            ||| a.domain == b.domain && a.bus == b.bus && a.device < b.device
            ||| a.domain == b.domain && a.bus == b.bus && a.device == b.device && a.function
                < b.function
        },
        a.rank() == b.rank() <==> a == b,
{
}

/// The characters of a written address: digits, `:` and `.`.
pub proof fn lemma_bdf_text(b: Bdf)
    ensures
        b.text().len() > 0,
        forall|i: int|
            0 <= i < b.text().len() ==> {
                let c = #[trigger] b.text()[i];
                number::plain_digit(c) || c == ':' || c == '.'
            },
{
    number::lemma_hex_padded_reads_back(b.domain as nat, 4, 0xffff);
    number::lemma_hex_padded_reads_back(b.bus as nat, 2, 0xff);
    number::lemma_hex_padded_reads_back(b.device as nat, 2, 0xff);
    number::lemma_hex_reads_back(b.function as nat, 0xff);
    reveal_strlit(":");
    reveal_strlit(".");
    let d = number::hex_padded(b.domain as nat, 4);
    let u = number::hex_padded(b.bus as nat, 2);
    let v = number::hex_padded(b.device as nat, 2);
    let f = number::hex(b.function as nat);
    let t = b.text();
    assert forall|i: int| 0 <= i < t.len() implies {
        let c = #[trigger] t[i];
        number::plain_digit(c) || c == ':' || c == '.'
    } by {
        let n1 = d.len() + 1;
        let n2 = n1 + u.len() + 1;
        let n3 = n2 + v.len() + 1;
        if i < d.len() {
            assert(t[i] == d[i]);
        } else if n1 <= i < n1 + u.len() {
            assert(t[i] == u[i - n1]);
        } else if n2 <= i < n2 + v.len() {
            assert(t[i] == v[i - n2]);
        } else if n3 <= i {
            assert(t[i] == f[i - n3]);
        }
    }
}

proof fn lemma_bdf_regrouped(
    d: Seq<char>,
    u: Seq<char>,
    v: Seq<char>,
    f: Seq<char>,
    colon: Seq<char>,
    dot: Seq<char>,
)
    ensures
        d + colon + u + colon + v + dot + f == d + colon + (u + colon + (v + dot + f)),
{
    assert(d + colon + u + colon + v + dot + f =~= d + colon + (u + colon + (v + dot + f)));
}

/// Reading a written address gives the address back.
#[verifier::rlimit(30)]
#[verifier::spinoff_prover]
pub proof fn law_bdf_reads_back(b: Bdf)
    ensures
        Bdf::parsed(b.text()) == Some(b),
{
    let d = number::hex_padded(b.domain as nat, 4);
    let u = number::hex_padded(b.bus as nat, 2);
    let v = number::hex_padded(b.device as nat, 2);
    let f = number::hex(b.function as nat);
    number::lemma_hex_padded_reads_back(b.domain as nat, 4, 0xffff);
    number::lemma_hex_padded_reads_back(b.bus as nat, 2, 0xff);
    number::lemma_hex_padded_reads_back(b.device as nat, 2, 0xff);
    number::lemma_hex_reads_back(b.function as nat, 0xff);
    assert(":"@ =~= seq![':']) by {
        reveal_strlit(":");
    }
    assert("."@ =~= seq!['.']) by {
        reveal_strlit(".");
    }
    lemma_bdf_regrouped(d, u, v, f, ":"@, "."@);
    text::lemma_cut_at(d, ':', u + ":"@ + (v + "."@ + f));
    text::lemma_cut_at(u, ':', v + "."@ + f);
    text::lemma_cut_at(v, '.', f);
}

// ---------------------------------------------------------------- resources

/// One line of a device's `resource` file: an address range and its flags.
#[derive(Clone, Copy, PartialEq, Eq, Structural, Debug)]
pub struct Resource {
    pub start: u64,
    pub end: u64,
    pub flags: u64,
}

impl Resource {
    /// The range is in use.
    pub open spec fn assigned(self) -> bool {
        self.flags != 0 && self.end >= self.start && !(self.start == 0 && self.end == 0)
    }

    /// The number of bytes in the range.
    pub open spec fn bytes(self) -> int {
        if self.assigned() {
            self.end - self.start + 1
        } else {
            0
        }
    }

    /// The number of bytes fits in 64 bits: the range is not the whole address space.
    pub open spec fn sized(self) -> bool {
        self.bytes() <= u64::MAX
    }

    /// The range is prefetchable 64-bit memory.
    pub open spec fn framebuffer_like(self) -> bool {
        self.flags & res_flag::PREFETCH != 0 && self.flags & res_flag::MEM_64 != 0
    }

    /// The kind of the range, as reports name it.
    pub open spec fn kind(self) -> Seq<char> {
        if self.flags & res_flag::IO != 0 {
            "io"@
        } else if self.flags & res_flag::MEM == 0 {
            "?"@
        } else if self.flags & res_flag::PREFETCH != 0 {
            if self.flags & res_flag::MEM_64 != 0 {
                "mem64 pref"@
            } else {
                "mem32 pref"@
            }
        } else if self.flags & res_flag::MEM_64 != 0 {
            "mem64"@
        } else {
            "mem32"@
        }
    }

    pub fn is_assigned(&self) -> (r: bool)
        ensures
            r == self.assigned(),
    {
        self.flags != 0 && self.end >= self.start && !(self.start == 0 && self.end == 0)
    }

    /// Whether the number of bytes fits in 64 bits, so that `size` can be asked.
    pub fn is_sized(&self) -> (r: bool)
        ensures
            r == self.sized(),
    {
        !(self.flags != 0 && self.start == 0 && self.end == u64::MAX)
    }

    /// The number of bytes in the range, also where it is the whole address space.
    pub fn span(&self) -> (r: u128)
        ensures
            r == self.bytes(),
    {
        if !self.is_assigned() {
            return 0;
        }
        (self.end - self.start) as u128 + 1
    }

    /// The number of bytes in the range, zero where it is not in use.
    pub fn size(&self) -> (r: u64)
        requires
            self.sized(),
        ensures
            r == self.bytes(),
    {
        if !self.is_assigned() {
            return 0;
        }
        self.end - self.start + 1
    }

    pub fn is_mem(&self) -> (r: bool)
        ensures
            r == (self.flags & res_flag::MEM != 0),
    {
        self.flags & res_flag::MEM != 0
    }

    pub fn is_io(&self) -> (r: bool)
        ensures
            r == (self.flags & res_flag::IO != 0),
    {
        self.flags & res_flag::IO != 0
    }

    pub fn is_prefetchable(&self) -> (r: bool)
        ensures
            r == (self.flags & res_flag::PREFETCH != 0),
    {
        self.flags & res_flag::PREFETCH != 0
    }

    pub fn is_mem64(&self) -> (r: bool)
        ensures
            r == (self.flags & res_flag::MEM_64 != 0),
    {
        self.flags & res_flag::MEM_64 != 0
    }

    /// The kind of the range, as reports name it.
    pub fn kind_label(&self) -> (r: &'static str)
        ensures
            r@ == self.kind(),
    {
        if self.is_io() {
            "io"
        } else if self.is_mem() {
            if self.is_prefetchable() && self.is_mem64() {
                "mem64 pref"
            } else if self.is_prefetchable() {
                "mem32 pref"
            } else if self.is_mem64() {
                "mem64"
            } else {
                "mem32"
            }
        } else {
            "?"
        }
    }
}

} // verus!
