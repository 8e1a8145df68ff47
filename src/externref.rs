//! Decisions of the opaque-reference bridge.
//!
//! In this mode host values travel on the guest's value stack as opaque
//! references.  Decoding one checks that it really carries a host value.
//! The bridge's array and string functions check indices and ranges here
//! before the host touches anything.
use vstd::prelude::*;

verus! {

/// What an opaque reference from the guest turned out to carry.
pub enum ExternPayload<V> {
    /// The null reference.
    Null,
    /// A reference to something that is not a host value.
    Foreign,
    /// A host value.
    Host(V),
}

#[derive(PartialEq, Eq, Structural, Clone, Copy, Debug)]
pub enum BridgeError {
    /// A null reference where a value is needed.
    NullValue,
    /// The reference does not carry a host value.
    NotHostValue,
    /// An index or range outside the array or memory.
    OutOfBound,
}

/// The reference that carries a host value; nil becomes the null reference.
pub fn variant_to_externref<V>(object: Option<V>) -> (r: ExternPayload<V>)
    ensures
        match object {
            None => r is Null,
            Some(v) => r == ExternPayload::Host(v),
        },
{
    match object {
        None => ExternPayload::Null,
        Some(v) => ExternPayload::Host(v),
    }
}

/// The host value that a reference carries; the null reference is nil.
pub fn externref_to_variant<V>(ext: ExternPayload<V>) -> (r: Result<Option<V>, BridgeError>)
    ensures
        match ext {
            ExternPayload::Null => r == Ok::<Option<V>, BridgeError>(None),
            ExternPayload::Foreign => r == Err::<Option<V>, BridgeError>(BridgeError::NotHostValue),
            ExternPayload::Host(v) => r == Ok::<Option<V>, BridgeError>(Some(v)),
        },
{
    match ext {
        ExternPayload::Null => Ok(None),
        ExternPayload::Foreign => Err(BridgeError::NotHostValue),
        ExternPayload::Host(v) => Ok(Some(v)),
    }
}

/// The host value that a reference carries, which must not be null.
pub fn externref_to_variant_nonnull<V>(ext: ExternPayload<V>) -> (r: Result<V, BridgeError>)
    ensures
        match ext {
            ExternPayload::Null => r == Err::<V, BridgeError>(BridgeError::NullValue),
            ExternPayload::Foreign => r == Err::<V, BridgeError>(BridgeError::NotHostValue),
            ExternPayload::Host(v) => r == Ok::<V, BridgeError>(v),
        },
{
    match ext {
        ExternPayload::Null => Err(BridgeError::NullValue),
        ExternPayload::Foreign => Err(BridgeError::NotHostValue),
        ExternPayload::Host(v) => Ok(v),
    }
}

/// Checks a guest index into an array of `len` elements.
pub fn array_index(i: i32, len: i32) -> (r: Result<usize, BridgeError>)
    ensures
        match r {
            Ok(k) => 0 <= i < len && k == i,
            Err(e) => !(0 <= i < len) && e == BridgeError::OutOfBound,
        },
{
    if i < 0 || i >= len {
        Err(BridgeError::OutOfBound)
    } else {
        Ok(i as usize)
    }
}

/// Checks the run of `n` elements at `i` that a fill writes, in an array of
/// `len` elements; returns the half-open index range.
pub fn fill_range(i: i32, n: i32, len: i32) -> (r: Result<(usize, usize), BridgeError>)
    ensures
        match r {
            Ok((b, e)) => 0 <= n && 0 <= i && i + n <= len && b == i && e == i + n,
            Err(err) => (n < 0 || i < 0 || i + n > len) && err == BridgeError::OutOfBound,
        },
{
    if n < 0 || i < 0 || (i as i64) + (n as i64) > len as i64 {
        return Err(BridgeError::OutOfBound);
    }
    Ok((i as usize, (i + n) as usize))
}

/// How an array grows: by pushing copies of a value, or by resizing.
#[derive(PartialEq, Eq, Structural, Clone, Copy, Debug)]
pub enum GrowAction {
    /// Push this many copies of the value.
    Push(usize),
    /// Resize to this length, padding with nil.
    Resize(u64),
    /// Leave the array as it is.
    Keep,
}

/// A positive `n` pushes `n` copies of the value; a negative `n` adds `-n`
/// nil elements; zero leaves the array alone.
pub fn grow_action(n: i32, len: i32) -> (r: GrowAction)
    requires
        0 <= len,
    ensures
        n > 0 ==> r == GrowAction::Push(n as usize),
        n < 0 ==> r == GrowAction::Resize((len - n) as u64),
        n == 0 ==> r == GrowAction::Keep,
{
    if n > 0 {
        GrowAction::Push(n as usize)
    } else if n < 0 {
        GrowAction::Resize((len as i64 - n as i64) as u64)
    } else {
        GrowAction::Keep
    }
}

/// Checks the `n` bytes at guest address `s` against a memory of `mem_len`
/// bytes; returns the half-open byte range.
pub fn guest_range(s: u32, n: u32, mem_len: usize) -> (r: Result<(usize, usize), BridgeError>)
    ensures
        match r {
            Ok((b, e)) => s + n <= mem_len && b == s && e == s + n,
            Err(err) => s + n > mem_len && err == BridgeError::OutOfBound,
        },
{
    let end: u64 = s as u64 + n as u64;
    if end > mem_len as u64 {
        return Err(BridgeError::OutOfBound);
    }
    Ok((s as usize, end as usize))
}

} // verus!
