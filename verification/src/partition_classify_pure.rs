//! Legacy-MBR partition `os_type` classification.
use vstd::prelude::*;

verus! {

/// Whether an MBR partition `os_type` byte may carry a filesystem worth
/// probing. Excluded: `0x00` (empty slot), `0x05`/`0x0F`/`0x85` (extended
/// containers), `0xEE` (GPT protective MBR) and `0xEF` (the ESP, already
/// mounted elsewhere).
pub fn mbr_os_type_is_mountable(os_type: u8) -> (r: bool)
    ensures
        r == !(os_type == 0x00 || os_type == 0x05 || os_type == 0x0F || os_type == 0x85
            || os_type == 0xEE || os_type == 0xEF),
{
    !matches!(os_type, 0x00 | 0x05 | 0x0F | 0x85 | 0xEE | 0xEF)
}

} // verus!
