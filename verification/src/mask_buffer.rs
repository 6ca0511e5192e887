//! The buffers that masks are handed out in.

use vstd::prelude::*;

use crate::admission::{at_most, saturating_product};
use crate::report::SessionError;

verus! {

/// The bytes of a mask of `words` words.
pub open spec fn mask_bytes(words: usize) -> int {
    at_most(words * 4, usize::MAX as int)
}

/// Checks that a caller's buffer holds exactly a mask of `words` words.
pub fn check_mask_buffer(words: usize, actual: usize) -> (r: Result<usize, SessionError>)
    ensures
        match r {
            Ok(n) => n == actual && actual == mask_bytes(words),
            Err(e) => actual != mask_bytes(words) && e == (SessionError::MaskByteBufferLength {
                expected: mask_bytes(words) as usize,
                actual,
            }),
        },
{
    let expected: usize = saturating_product(words, 4);
    if actual != expected {
        return Err(SessionError::MaskByteBufferLength { expected, actual });
    }
    Ok(actual)
}

/// The bits of a buffer request that matter for a read-only view.
#[derive(Clone, Copy, Debug, PartialEq, Eq, Structural)]
pub struct BufferMasks {
    pub writable: u32,
    pub format: u32,
    pub nd: u32,
    pub strides: u32,
}

/// Whether a request sets every bit of `mask`.
pub open spec fn requests(flags: u32, mask: u32) -> bool {
    flags & mask == mask
}

/// A read-only view of a packed mask table: its length in bytes, and which of the optional fields
/// the request asks for.
#[derive(Clone, Copy, Debug, PartialEq, Eq, Structural)]
pub struct TableView {
    pub len: usize,
    pub with_format: bool,
    pub with_shape: bool,
    pub with_strides: bool,
}

/// The view that a request gets, or why it gets none. `words` is the length of the packed table,
/// where the artifact has one.
pub open spec fn table_view_outcome(
    view_is_null: bool,
    flags: u32,
    masks: BufferMasks,
    words: Option<usize>,
) -> Result<TableView, Seq<char>> {
    if view_is_null {
        Err("view is null"@)
    } else if requests(flags, masks.writable) {
        Err("mask table view is read-only"@)
    } else if words is None {
        Err("artifact is no longer in packed bind mode"@)
    } else if words->Some_0 * 4 > usize::MAX {
        Err("mask table byte length overflows"@)
    } else if words->Some_0 * 4 > isize::MAX {
        Err("mask table byte length exceeds isize::MAX"@)
    } else {
        Ok(
            TableView {
                len: (words->Some_0 * 4) as usize,
                with_format: requests(flags, masks.format),
                with_shape: requests(flags, masks.nd),
                with_strides: requests(flags, masks.strides),
            },
        )
    }
}

/// Decides on a request for a read-only view of the packed mask table.
pub fn plan_readonly_table_view(
    view_is_null: bool,
    flags: u32,
    masks: &BufferMasks,
    words: Option<usize>,
) -> (r: Result<TableView, &'static str>)
    ensures
        match table_view_outcome(view_is_null, flags, *masks, words) {
            Ok(view) => r == Ok::<TableView, &'static str>(view),
            Err(message) => r is Err && r->Err_0@ == message,
        },
{
    if view_is_null {
        return Err("view is null");
    }
    if flags & masks.writable == masks.writable {
        return Err("mask table view is read-only");
    }
    let words: usize = match words {
        Some(n) => n,
        None => {
            return Err("artifact is no longer in packed bind mode");
        },
    };
    let len: usize = match words.checked_mul(4) {
        Some(n) => n,
        None => {
            return Err("mask table byte length overflows");
        },
    };
    if len > isize::MAX as usize {
        return Err("mask table byte length exceeds isize::MAX");
    }
    Ok(
        TableView {
            len,
            with_format: flags & masks.format == masks.format,
            with_shape: flags & masks.nd == masks.nd,
            with_strides: flags & masks.strides == masks.strides,
        },
    )
}

} // verus!
