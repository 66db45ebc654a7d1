//! Streaming MD5 fingerprinting.
//!
//! The hash itself is computed by the `md5_rs` crate; this module wraps its
//! incremental context in an accumulator that tracks, as a ghost sequence,
//! every byte fed so far, so that callers can state exactly which bytes a
//! digest covers.

use vstd::prelude::*;

verus! {

/// The 16-byte MD5 digest of a byte sequence, as `md5_rs` computes it.
/// The digest is a pure function of the input bytes; nothing further is
/// assumed of its value.
pub uninterp spec fn md5_of(bytes: Seq<u8>) -> Seq<u8>;

#[verifier::external_type_specification]
#[verifier::external_body]
pub struct ExMd5Context(md5_rs::Context);

/// Relies on `md5_rs::Context::new`: a fresh context that has read no input.
pub assume_specification[ md5_rs::Context::new ]() -> md5_rs::Context;

/// A running MD5 accumulator.
///
/// The `fed` field is the specification-level record of the bytes handed to
/// the underlying context.  The fields are private, so every value of this
/// type is built by [`Md5::new`] and grown by [`Md5::update`], which keep
/// `fed` equal to the bytes the context has actually read.
pub struct Md5 {
    ctx: md5_rs::Context,
    fed: Ghost<Seq<u8>>,
}

impl Md5 {
    /// The bytes fed to the accumulator so far.
    pub closed spec fn bytes(&self) -> Seq<u8> {
        self.fed@
    }

    /// A fresh accumulator that has read no input.
    pub fn new() -> (r: Md5)
        ensures
            r.bytes() == Seq::<u8>::empty(),
    {
        Md5 { ctx: md5_rs::Context::new(), fed: Ghost(Seq::empty()) }
    }

    /// Relies on `md5_rs::Context::read`: feeds `chunk` into the digest.
    /// The context counts its input in a `u64`, so the total input is kept
    /// within that range.
    #[verifier::external_body]
    pub fn update(&mut self, chunk: &[u8])
        requires
            old(self).bytes().len() + chunk@.len() <= u64::MAX,
        ensures
            final(self).bytes() == old(self).bytes() + chunk@,
    {
        self.ctx.read(chunk);
    }

    /// Relies on `md5_rs::Context::finish`: the digest of everything fed,
    /// 16 bytes long.
    #[verifier::external_body]
    pub fn finish(self) -> (r: Vec<u8>)
        ensures
            r@ == md5_of(self.bytes()),
            r@.len() == 16,
    {
        self.ctx.finish().to_vec()
    }
}

} // verus!
