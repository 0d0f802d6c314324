//! The error taxonomy of the store.

use vstd::prelude::*;

verus! {

/// An error of the storage engine or of the layers around it.
///
/// `NotFound` names an absent key; the protocol surfaces it as `NOT_FOUND`
/// rather than as a hard error. `AtCapacity` means a `set` could not free
/// enough bytes even by eviction. `Internal` carries the text of a fault
/// that is not caused by client input (a bind or I/O failure at the edges
/// of the system).
#[derive(Debug)]
pub enum BlinkError {
    NotFound(Vec<u8>),
    AtCapacity,
    Internal(Vec<u8>),
}

/// The bytes of `key not found: `.
pub open spec fn msg_not_found_prefix() -> Seq<u8> {
    seq![107u8, 101u8, 121u8, 32u8, 110u8, 111u8, 116u8, 32u8, 102u8, 111u8, 117u8, 110u8, 100u8,
        58u8, 32u8]
}

/// The bytes of `storage is at capacity and eviction failed`.
pub open spec fn msg_at_capacity() -> Seq<u8> {
    seq![115u8, 116u8, 111u8, 114u8, 97u8, 103u8, 101u8, 32u8, 105u8, 115u8, 32u8, 97u8, 116u8,
        32u8, 99u8, 97u8, 112u8, 97u8, 99u8, 105u8, 116u8, 121u8, 32u8, 97u8, 110u8, 100u8, 32u8,
        101u8, 118u8, 105u8, 99u8, 116u8, 105u8, 111u8, 110u8, 32u8, 102u8, 97u8, 105u8, 108u8,
        101u8, 100u8]
}

/// The bytes of `internal error: `.
pub open spec fn msg_internal_prefix() -> Seq<u8> {
    seq![105u8, 110u8, 116u8, 101u8, 114u8, 110u8, 97u8, 108u8, 32u8, 101u8, 114u8, 114u8, 111u8,
        114u8, 58u8, 32u8]
}

/// The message text of an error, as line bytes.
pub open spec fn spec_message(e: BlinkError) -> Seq<u8> {
    match e {
        BlinkError::NotFound(k) => msg_not_found_prefix() + k@,
        BlinkError::AtCapacity => msg_at_capacity(),
        BlinkError::Internal(t) => msg_internal_prefix() + t@,
    }
}

impl BlinkError {
    /// The message text of this error, as line bytes.
    pub fn message(&self) -> (r: Vec<u8>)
        ensures
            r@ == spec_message(*self),
    {
        match self {
            BlinkError::NotFound(k) => {
                let mut v: Vec<u8> = Vec::new();
                v.push(107);
                v.push(101);
                v.push(121);
                v.push(32);
                v.push(110);
                v.push(111);
                v.push(116);
                v.push(32);
                v.push(102);
                v.push(111);
                v.push(117);
                v.push(110);
                v.push(100);
                v.push(58);
                v.push(32);
                assert(v@ =~= msg_not_found_prefix());
                crate::util::append_bytes(&mut v, k.as_slice());
                v
            },
            BlinkError::AtCapacity => {
                let mut v: Vec<u8> = Vec::new();
                v.push(115);
                v.push(116);
                v.push(111);
                v.push(114);
                v.push(97);
                v.push(103);
                v.push(101);
                v.push(32);
                v.push(105);
                v.push(115);
                v.push(32);
                v.push(97);
                v.push(116);
                v.push(32);
                v.push(99);
                v.push(97);
                v.push(112);
                v.push(97);
                v.push(99);
                v.push(105);
                v.push(116);
                v.push(121);
                v.push(32);
                v.push(97);
                v.push(110);
                v.push(100);
                v.push(32);
                v.push(101);
                v.push(118);
                v.push(105);
                v.push(99);
                v.push(116);
                v.push(105);
                v.push(111);
                v.push(110);
                v.push(32);
                v.push(102);
                v.push(97);
                v.push(105);
                v.push(108);
                v.push(101);
                v.push(100);
                assert(v@ =~= msg_at_capacity());
                v
            },
            BlinkError::Internal(t) => {
                let mut v: Vec<u8> = Vec::new();
                v.push(105);
                v.push(110);
                v.push(116);
                v.push(101);
                v.push(114);
                v.push(110);
                v.push(97);
                v.push(108);
                v.push(32);
                v.push(101);
                v.push(114);
                v.push(114);
                v.push(111);
                v.push(114);
                v.push(58);
                v.push(32);
                assert(v@ =~= msg_internal_prefix());
                crate::util::append_bytes(&mut v, t.as_slice());
                v
            },
        }
    }
}

} // verus!
