//! SPA results and errors.

use vstd::prelude::*;

verus! {

/// The bit that marks a result value as an asynchronous sequence number.
pub const ASYNC_BIT: i32 = 0x4000_0000;

/// The mask that extracts the sequence number from an asynchronous result.
pub const ASYNC_SEQ_MASK: i32 = 0x3fff_ffff;

/// The sequence-number part of a result value.
pub open spec fn spec_async_seq(res: i32) -> i32 {
    res & ASYNC_SEQ_MASK
}

/// Whether a result value carries an asynchronous sequence number: the async
/// bit is set and the sign bit is not.
pub open spec fn spec_is_async(val: i32) -> bool {
    val >= 0 && val & ASYNC_BIT == ASYNC_BIT
}

fn async_seq(res: i32) -> (r: i32)
    ensures
        r == spec_async_seq(res),
{
    res & ASYNC_SEQ_MASK
}

fn is_async(val: i32) -> (r: bool)
    ensures
        r == spec_is_async(val),
{
    val >= 0 && val & ASYNC_BIT == ASYNC_BIT
}

/// A result returned by a SPA method, usually to be converted to a Rust
/// result using [`SpaResult::into_result`] or
/// [`SpaResult::into_async_result`].
#[derive(Debug, PartialEq, Eq, Structural)]
pub struct SpaResult(i32);

/// An asynchronous sequence number returned by a SPA component.
///
/// Use [`AsyncSeq::seq`] to retrieve the actual sequence number.
#[derive(Debug, PartialEq, Eq, Structural, Copy, Clone)]
pub struct AsyncSeq(i32);

/// A successful result from a SPA method.
#[derive(Debug, PartialEq, Eq, Structural)]
pub enum SpaSuccess {
    /// Synchronous success
    Sync(i32),
    /// Asynchronous success
    Async(AsyncSeq),
}

/// Error returned from a SPA method: a positive `errno`-style code.
#[derive(Debug, PartialEq, Eq, Structural)]
pub struct Error(i32);

/// Relies on the `errno` crate: formatting an `Errno` renders the platform's
/// description of the error code, via `strerror_r`.
#[verifier::external_body]
fn strerror(code: i32) -> String {
    format!("{}", errno::Errno(code))
}

impl Error {
    /// The raw error code, always positive.
    pub closed spec fn spec_code(&self) -> i32 {
        self.0
    }

    fn new(e: i32) -> (r: Self)
        requires
            e > 0,
        ensures
            r.spec_code() == e,
    {
        Self(e)
    }

    /// The raw error code, always positive.
    pub fn code(&self) -> (c: i32)
        ensures
            c == self.spec_code(),
    {
        self.0
    }

    /// The platform's human-readable description of the error code.
    pub fn message(&self) -> String {
        strerror(self.0)
    }
}

impl AsyncSeq {
    /// The raw value carried, with the async bit set.
    pub closed spec fn spec_raw(&self) -> i32 {
        self.0
    }

    /// The sequence number.
    pub fn seq(&self) -> (s: i32)
        ensures
            s == spec_async_seq(self.spec_raw()),
    {
        async_seq(self.0)
    }

    /// The raw value: the sequence number with the async bit set.
    pub fn raw(&self) -> (r: i32)
        ensures
            r == self.spec_raw(),
    {
        self.0
    }

    /// Create a new [`AsyncSeq`] from a sequence number.
    pub fn from_seq(seq: i32) -> (r: Self)
        ensures
            r.spec_raw() == ASYNC_BIT | spec_async_seq(seq),
            spec_async_seq(r.spec_raw()) == spec_async_seq(seq),
            spec_is_async(r.spec_raw()),
    {
        let res = ASYNC_BIT | async_seq(seq);
        proof {
            let s = seq;
            assert((0x4000_0000i32 | (s & 0x3fff_ffff)) & 0x3fff_ffff == s & 0x3fff_ffff)
                by (bit_vector);
            assert((0x4000_0000i32 | (s & 0x3fff_ffff)) & 0x4000_0000 == 0x4000_0000)
                by (bit_vector);
            assert(0x4000_0000i32 | (s & 0x3fff_ffff) >= 0) by (bit_vector);
        }
        Self(res)
    }

    /// Create a new [`AsyncSeq`] from a raw value having the async bit set.
    pub fn from_raw(val: i32) -> (r: Self)
        requires
            spec_is_async(val),
        ensures
            r.spec_raw() == val,
    {
        Self(val)
    }
}

impl SpaResult {
    /// The raw value carried.
    pub closed spec fn spec_raw(&self) -> i32 {
        self.0
    }

    /// Create a new [`SpaResult`] from a value returned by a SPA method.
    pub fn from_c(res: i32) -> (r: Self)
        ensures
            r.spec_raw() == res,
    {
        Self(res)
    }

    /// Pending return for an async operation identified by the sequence
    /// number `seq`.
    pub fn new_return_async(seq: i32) -> (r: Self)
        ensures
            spec_is_async(r.spec_raw()),
            spec_async_seq(r.spec_raw()) == spec_async_seq(seq),
    {
        let s = AsyncSeq::from_seq(seq);
        Self::from_c(s.raw())
    }

    fn is_async(&self) -> (r: bool)
        ensures
            r == spec_is_async(self.spec_raw()),
    {
        is_async(self.0)
    }

    /// Convert a [`SpaResult`] into a [`Result`]: negative values carry an
    /// error code, non-negative values a synchronous or asynchronous success.
    pub fn into_result(self) -> (r: Result<SpaSuccess, Error>)
        requires
            self.spec_raw() != i32::MIN,
        ensures
            self.spec_raw() < 0 ==> (r matches Err(e) && e.spec_code() == -self.spec_raw()),
            self.spec_raw() >= 0 && spec_is_async(self.spec_raw()) ==> (r matches Ok(s)
                && s matches SpaSuccess::Async(a) && a.spec_raw() == self.spec_raw()),
            self.spec_raw() >= 0 && !spec_is_async(self.spec_raw()) ==> (r matches Ok(s)
                && s matches SpaSuccess::Sync(v) && v == self.spec_raw()),
    {
        if self.0 < 0 {
            Err(Error::new(-self.0))
        } else if self.is_async() {
            Ok(SpaSuccess::Async(AsyncSeq::from_raw(self.0)))
        } else {
            Ok(SpaSuccess::Sync(self.0))
        }
    }

    /// Convert a [`SpaResult`] into either an [`AsyncSeq`] or an [`Error`].
    ///
    /// A synchronous success is a caller error here and is excluded by the
    /// precondition: the caller knows the operation to be asynchronous.
    pub fn into_async_result(self) -> (r: Result<AsyncSeq, Error>)
        requires
            self.spec_raw() != i32::MIN,
            self.spec_raw() >= 0 ==> spec_is_async(self.spec_raw()),
        ensures
            self.spec_raw() < 0 ==> (r matches Err(e) && e.spec_code() == -self.spec_raw()),
            self.spec_raw() >= 0 ==> (r matches Ok(a) && a.spec_raw() == self.spec_raw()),
    {
        match self.into_result() {
            Err(e) => Err(e),
            Ok(SpaSuccess::Async(seq)) => Ok(seq),
            Ok(SpaSuccess::Sync(_)) => {
                proof {
                    assert(false);
                }
                Err(Error::new(1))
            },
        }
    }
}

} // verus!
