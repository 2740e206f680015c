//! The decisions of copying memory between cages: which copies are
//! refused, how many bytes a bounded string copy moves, and whether the
//! final address ranges are usable.
use crate::consts::{ELINDAPIABORTED, MAX_LINEAR_MEMORY_SIZE};
use vstd::prelude::*;

verus! {

/// The kinds of copy between cages.
#[derive(PartialEq, Eq, Structural, Clone, Copy, Debug)]
pub enum CopyType {
    /// Copy exactly `len` bytes.
    RawMemcpy,
    /// Copy up to and including the first zero byte, at most `len` bytes.
    Strncpy,
}

/// Maps the numeric copy type to a `CopyType`: 0 is a raw copy, 1 a
/// bounded string copy; any other value comes back as the error.
pub fn copy_type_from(v: u64) -> (r: Result<CopyType, u64>)
    ensures
        v == 0 ==> r == Ok::<CopyType, u64>(CopyType::RawMemcpy),
        v == 1 ==> r == Ok::<CopyType, u64>(CopyType::Strncpy),
        v > 1 ==> r == Err::<CopyType, u64>(v),
{
    match v {
        0 => Ok(CopyType::RawMemcpy),
        1 => Ok(CopyType::Strncpy),
        _ => Err(v),
    }
}

/// `Ok` when `len` does not exceed `max`, `ELINDAPIABORTED` otherwise.
pub fn _validate_len(len: u64, max: u64) -> (r: Result<(), u64>)
    ensures
        len <= max ==> r == Ok::<(), u64>(()),
        len > max ==> r == Err::<(), u64>(ELINDAPIABORTED),
{
    if len > max {
        return Err(ELINDAPIABORTED);
    }
    Ok(())
}

/// Whether `i` is the position of the first zero byte of `s`.
pub open spec fn is_first_nul(s: Seq<u8>, i: int) -> bool {
    &&& 0 <= i < s.len()
    &&& s[i] == 0
    &&& forall|j: int| 0 <= j < i ==> s[j] != 0
}

/// The index of the first zero byte among the first `max_len` bytes of
/// `src`, or `None` when there is none.
pub fn _strlen_in_cage(src: &[u8], max_len: usize) -> (r: Option<usize>)
    requires
        max_len <= src@.len(),
    ensures
        r matches Some(i) ==> i < max_len && is_first_nul(src@, i as int),
        r is None ==> forall|j: int| 0 <= j < max_len ==> src@[j] != 0,
{
    let mut i: usize = 0;
    while i < max_len
        invariant
            i <= max_len <= src@.len(),
            forall|j: int| 0 <= j < i ==> src@[j] != 0,
        decreases max_len - i,
    {
        if src[i] == 0 {
            return Some(i);
        }
        i = i + 1;
    }
    None
}

/// What the first checks of a copy between cages decide.
#[derive(PartialEq, Eq, Structural, Clone, Copy, Debug)]
pub enum CopyCheck {
    /// The request is refused with `ELINDAPIABORTED`.
    Reject,
    /// A zero destination asks for allocation, which is not supported.
    NeedsAllocation,
    /// Copy exactly `len` bytes.
    Memcpy,
    /// Scan the source for its terminator first, at most `len` bytes.
    Strncpy,
}

/// The first checks of a copy: the two cages must differ, `len` must fit a
/// linear memory, the destination must be given and the copy type known.
pub fn copy_data_precheck(srccage: u64, destcage: u64, destaddr: u64, len: u64, copytype: u64) -> (r:
    CopyCheck)
    ensures
        r == (if srccage == destcage || len > MAX_LINEAR_MEMORY_SIZE {
            CopyCheck::Reject
        } else if destaddr == 0 {
            CopyCheck::NeedsAllocation
        } else if copytype == 0 {
            CopyCheck::Memcpy
        } else if copytype == 1 {
            CopyCheck::Strncpy
        } else {
            CopyCheck::Reject
        }),
{
    if srccage == destcage {
        return CopyCheck::Reject;
    }
    if _validate_len(len, MAX_LINEAR_MEMORY_SIZE).is_err() {
        return CopyCheck::Reject;
    }
    if destaddr == 0 {
        return CopyCheck::NeedsAllocation;
    }
    match copy_type_from(copytype) {
        Ok(CopyType::RawMemcpy) => CopyCheck::Memcpy,
        Ok(CopyType::Strncpy) => CopyCheck::Strncpy,
        Err(_) => CopyCheck::Reject,
    }
}

/// Bytes a bounded string copy moves: through the terminator when one was
/// found, otherwise the whole limit; never more than `len`.
pub fn strncpy_copy_len(found: Option<usize>, len: usize) -> (r: usize)
    ensures
        found matches Some(n) ==> r == (if n + 1 < len {
            n + 1
        } else {
            len as int
        }),
        found is None ==> r == len,
{
    match found {
        Some(n) => {
            if n < len && n + 1 < len {
                n + 1
            } else {
                len
            }
        },
        None => len,
    }
}

/// Whether both addresses are non-null and neither range wraps around.
pub fn copy_addresses_valid(srcaddr: u64, destaddr: u64, copy_len: u64) -> (r: bool)
    ensures
        r == (srcaddr != 0 && destaddr != 0 && srcaddr + copy_len <= u64::MAX && destaddr
            + copy_len <= u64::MAX),
{
    if srcaddr == 0 || destaddr == 0 {
        return false;
    }
    srcaddr.checked_add(copy_len).is_some() && destaddr.checked_add(copy_len).is_some()
}

} // verus!
