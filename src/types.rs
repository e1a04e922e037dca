use vstd::prelude::*;

use crate::error::TFTPError;

verus! {

/// A received datagram.
pub type RawResponse<'a> = &'a [u8];

/// An encoded packet, ready to send.
pub type RawRequest = Vec<u8>;

pub type TFTPResult<T> = Result<T, TFTPError>;

} // verus!
