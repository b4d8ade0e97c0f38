//! PCI config space: where it lies in sysfs, and how a dword lies in its bytes.

use vstd::prelude::*;

use crate::pci::Bdf;

verus! {

/// The config-space file of a device.
pub open spec fn config_file(bdf: Bdf) -> Seq<char> {
    bdf.dir() + "/config"@
}

/// The config-space file of a device.
pub fn config_path(bdf: Bdf) -> (r: String)
    ensures
        r@ == config_file(bdf),
{
    let mut r = bdf.sysfs_dir();
    r.append("/config");
    r
}

/// The number that four bytes hold, least significant byte first.
pub open spec fn dword(b: Seq<u8>) -> int {
    b[0] + b[1] * 0x100 + b[2] * 0x1_0000 + b[3] * 0x100_0000
}

/// The dword that was read as four bytes.
pub fn read_dword(bytes: [u8; 4]) -> (r: u32)
    ensures
        r == dword(bytes@),
{
    bytes[0] as u32 + bytes[1] as u32 * 0x100 + bytes[2] as u32 * 0x1_0000 + bytes[3] as u32
        * 0x100_0000
}

/// The four bytes to write for a dword.
pub fn write_dword(value: u32) -> (r: [u8; 4])
    ensures
        dword(r@) == value,
{
    [
        (value % 0x100) as u8,
        (value / 0x100 % 0x100) as u8,
        (value / 0x1_0000 % 0x100) as u8,
        (value / 0x100_0000) as u8,
    ]
}

/// Distinct byte groups are distinct dwords, so that a written dword reads back as itself and no
/// other group of bytes reads back as it.
pub proof fn law_dword_is_exact(a: [u8; 4], b: [u8; 4])
    requires
        dword(a@) == dword(b@),
    ensures
        a@ == b@,
{
    assert(a@[3] == b@[3]);
    assert(a@[2] == b@[2]);
    assert(a@[1] == b@[1]);
    assert(a@ =~= b@);
}

} // verus!
