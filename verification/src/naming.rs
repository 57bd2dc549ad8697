//! Slot-identity naming: each identity in the bounded pool maps
//! deterministically to a local socket name — a reserved zero lead byte,
//! the fixed prefix, and a two-digit zero-padded slot index — and a name
//! is encoded into the platform's fixed 14-byte address data field by an
//! explicit byte-offset layout. A name that cannot fit the address buffer
//! is a construction error, never a recoverable state.
use crate::errors::{ErrorKind, SocketError};
use vstd::prelude::*;

verus! {

/// Names longer than this cannot fit the fixed address data field once
/// the reserved lead byte is in place.
pub const MAX_NAME_BYTES: usize = 12;

/// The name of slot identity `i`: a zero lead byte, the prefix `inps.`,
/// and the two decimal digits of `i`.
pub open spec fn spec_slot_name(i: int) -> Seq<u8>
    recommends
        0 <= i < 100,
{
    seq![0u8, 105u8, 110u8, 112u8, 115u8, 46u8, (48 + i / 10) as u8, (48 + i % 10) as u8]
}

/// Build the local socket name of slot identity `i`. Succeeds exactly for
/// the identities whose two-digit index keeps the name inside the address
/// buffer.
pub fn slot_name(i: u32) -> (r: Result<Vec<u8>, SocketError>)
    ensures
        r is Ok <==> i < 100,
        r matches Ok(nm) ==> nm@ == spec_slot_name(i as int) && nm@.len() == 8,
        r matches Err(e) ==> e.kind == ErrorKind::Construction,
{
    if i >= 100 {
        return Err(
            SocketError::with_kind(
                ErrorKind::Construction,
                "slot identity does not fit a two-digit name",
            ),
        );
    }
    let mut nm: Vec<u8> = Vec::new();
    nm.push(0u8);
    nm.push(105u8);
    nm.push(110u8);
    nm.push(112u8);
    nm.push(115u8);
    nm.push(46u8);
    nm.push(48u8 + (i / 10) as u8);
    nm.push(48u8 + (i % 10) as u8);
    proof {
        assert(nm@ =~= spec_slot_name(i as int));
    }
    Ok(nm)
}

/// Encode a local socket name into the fixed 14-byte address data field:
/// a zero byte leads, the name's bytes follow at offset one, and the rest
/// is zero. Succeeds exactly when the name fits the buffer.
pub fn encode_sockaddr_data(name: &Vec<u8>) -> (r: Result<Vec<u8>, SocketError>)
    ensures
        r is Ok <==> name@.len() <= MAX_NAME_BYTES,
        r matches Ok(d) ==> {
            &&& d@.len() == 14
            &&& d@[0] == 0
            &&& forall|k: int| 0 <= k < name@.len() ==> #[trigger] d@[k + 1] == name@[k]
            &&& forall|k: int| name@.len() < k < 14 ==> #[trigger] d@[k] == 0
        },
        r matches Err(e) ==> e.kind == ErrorKind::Construction,
{
    let len = name.len();
    if len > MAX_NAME_BYTES {
        return Err(
            SocketError::with_kind(
                ErrorKind::Construction,
                "socket name does not fit the address buffer",
            ),
        );
    }
    let mut d: Vec<u8> = Vec::new();
    d.push(0u8);
    let mut i: usize = 0;
    while i < len
        invariant
            i <= len,
            len == name@.len(),
            d@.len() == i + 1,
            d@[0] == 0,
            forall|k: int| 0 <= k < i ==> #[trigger] d@[k + 1] == name@[k],
        decreases len - i,
    {
        d.push(name[i]);
        i = i + 1;
    }
    while d.len() < 14
        invariant
            len == name@.len(),
            len + 1 <= d@.len() <= 14,
            d@[0] == 0,
            forall|k: int| 0 <= k < len ==> #[trigger] d@[k + 1] == name@[k],
            forall|k: int| len < k < d@.len() ==> #[trigger] d@[k] == 0,
        decreases 14 - d.len(),
    {
        d.push(0u8);
    }
    Ok(d)
}

/// The address data field for slot identity `i` in one step: the slot's
/// name always fits the buffer, so this succeeds exactly when the
/// identity has a name.
pub fn slot_addr_data(i: u32) -> (r: Result<Vec<u8>, SocketError>)
    ensures
        r is Ok <==> i < 100,
        r matches Ok(d) ==> {
            &&& d@.len() == 14
            &&& d@[0] == 0
            &&& forall|k: int| 0 <= k < 8 ==> #[trigger] d@[k + 1] == spec_slot_name(i as int)[k]
            &&& forall|k: int| 8 < k < 14 ==> #[trigger] d@[k] == 0
        },
        r matches Err(e) ==> e.kind == ErrorKind::Construction,
{
    let nm = match slot_name(i) {
        Ok(nm) => nm,
        Err(e) => {
            return Err(e);
        },
    };
    match encode_sockaddr_data(&nm) {
        Ok(d) => Ok(d),
        Err(e) => Err(e),
    }
}

} // verus!
