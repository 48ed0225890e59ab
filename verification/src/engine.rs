//! MD5 digest engines: the trait the accumulator is generic over, and two
//! interchangeable implementations (a portable software one and an
//! OpenSSL-backed one).

use vstd::prelude::*;

verus! {

/// The MD5 digest of a byte sequence, as a function of the input alone.
///
/// MD5 is deterministic: the same bytes give the same 16-byte digest in every
/// process and on every machine. Nothing here states what that digest is; the
/// trusted engine methods below state that both the `md-5` crate and OpenSSL
/// return exactly this value, which is what makes the two engines
/// interchangeable.
pub uninterp spec fn md5_of(s: Seq<u8>) -> Seq<u8>;

/// The minimum requirements for an underlying MD5 hash engine.
///
/// An engine is created empty, absorbs bytes through `update`, and produces
/// the 16-byte digest of everything absorbed through `finalize` (consuming)
/// or `finalize_reset` (returning to the empty state).
pub trait Md5Hasher: Sized {
    /// The bytes absorbed since the engine was created or last reset.
    spec fn bytes(&self) -> Seq<u8>;

    /// The digest function this engine computes over its absorbed bytes.
    spec fn spec_digest(s: Seq<u8>) -> Seq<u8>;

    /// Creates an engine in the initial, empty state.
    fn new() -> (r: Self)
        ensures
            r.bytes() == Seq::<u8>::empty(),
    ;

    /// Updates the internal state by processing the data.
    fn update(&mut self, data: &[u8])
        ensures
            final(self).bytes() == old(self).bytes() + data@,
    ;

    /// Returns the result, consuming the hasher.
    fn finalize(self) -> (r: [u8; 16])
        ensures
            r@ == Self::spec_digest(self.bytes()),
    ;

    /// Returns the result, resetting the hasher to the initial state.
    fn finalize_reset(&mut self) -> (r: [u8; 16])
        ensures
            r@ == Self::spec_digest(old(self).bytes()),
            final(self).bytes() == Seq::<u8>::empty(),
    ;
}

/// Holds the `md-5` crate's hasher state, opaque to the verifier.
///
/// `md5::Md5` is an alias for a generic wrapper whose type-level generics the
/// verifier cannot digest, so the state is hidden behind this struct instead
/// of a type declaration.
#[verifier::external_body]
struct Md5Ctx {
    ctx: md5::Md5,
}

/// A portable MD5 engine backed by the `md-5` crate.
///
/// The `fed` field mirrors, in ghost state, the bytes the wrapped context has
/// absorbed; the trusted methods below keep the two in step.
pub struct SoftwareMd5 {
    ctx: Md5Ctx,
    fed: Ghost<Seq<u8>>,
}

/// Relies on `md5::Md5::new` (`digest::Digest::new`): a fresh hasher has
/// processed no data.
#[verifier::external_body]
fn fresh_md5_ctx() -> Md5Ctx {
    Md5Ctx { ctx: <md5::Md5 as md5::Digest>::new() }
}

impl SoftwareMd5 {
    /// Relies on `digest::Digest::update`: appends the data to the running
    /// hash state.
    #[verifier::external_body]
    fn ctx_update(&mut self, data: &[u8])
        ensures
            final(self).fed@ == old(self).fed@ + data@,
    {
        md5::Digest::update(&mut self.ctx.ctx, data);
    }

    /// Relies on `digest::Digest::finalize`: returns the 16-byte MD5 digest
    /// of everything fed so far.
    #[verifier::external_body]
    fn ctx_finalize(self) -> (r: [u8; 16])
        ensures
            r@ == md5_of(self.fed@),
    {
        md5::Digest::finalize(self.ctx.ctx).into()
    }

    /// Relies on `digest::Digest::finalize_reset`: returns the digest of
    /// everything fed so far and restores the initial state.
    #[verifier::external_body]
    fn ctx_finalize_reset(&mut self) -> (r: [u8; 16])
        ensures
            r@ == md5_of(old(self).fed@),
            final(self).fed@ == Seq::<u8>::empty(),
    {
        md5::Digest::finalize_reset(&mut self.ctx.ctx).into()
    }
}

impl Md5Hasher for SoftwareMd5 {
    closed spec fn bytes(&self) -> Seq<u8> {
        self.fed@
    }

    open spec fn spec_digest(s: Seq<u8>) -> Seq<u8> {
        md5_of(s)
    }

    fn new() -> Self {
        SoftwareMd5 { ctx: fresh_md5_ctx(), fed: Ghost(Seq::empty()) }
    }

    fn update(&mut self, data: &[u8]) {
        self.ctx_update(data)
    }

    fn finalize(self) -> [u8; 16] {
        self.ctx_finalize()
    }

    fn finalize_reset(&mut self) -> [u8; 16] {
        self.ctx_finalize_reset()
    }
}

impl Default for SoftwareMd5 {
    /// Creates an engine in the initial, empty state.
    fn default() -> (r: Self)
        ensures
            r.bytes() == Seq::<u8>::empty(),
    {
        Md5Hasher::new()
    }
}

#[verifier::external_type_specification]
#[verifier::external_body]
pub struct ExMdCtx(openssl::md_ctx::MdCtx);

/// An MD5 engine backed by OpenSSL's `EVP_MD_CTX` object.
///
/// The trusted methods of this type panic if the underlying OpenSSL calls
/// unexpectedly return an error, rather than produce a wrong digest.
pub struct OpensslMd5 {
    ctx: openssl::md_ctx::MdCtx,
    fed: Ghost<Seq<u8>>,
}

/// Relies on `openssl::md_ctx::MdCtx::new` followed by `digest_init` with
/// `Md::md5`: a freshly initialized context has processed no data.
#[verifier::external_body]
fn fresh_openssl_ctx() -> openssl::md_ctx::MdCtx {
    let mut ctx = openssl::md_ctx::MdCtx::new().expect("openssl error");
    ctx.digest_init(openssl::md::Md::md5()).expect("openssl error");
    ctx
}

impl OpensslMd5 {
    /// Relies on `MdCtx::digest_update`: appends the data to the running
    /// hash state.
    #[verifier::external_body]
    fn ctx_update(&mut self, data: &[u8])
        ensures
            final(self).fed@ == old(self).fed@ + data@,
    {
        self.ctx.digest_update(data).expect("openssl error");
    }

    /// Relies on `MdCtx::digest_final`: writes the 16-byte MD5 digest of
    /// everything fed so far into the buffer.
    #[verifier::external_body]
    fn ctx_finalize(self) -> (r: [u8; 16])
        ensures
            r@ == md5_of(self.fed@),
    {
        let mut this = self;
        let mut buffer = [0u8; 16];
        this.ctx.digest_final(&mut buffer).expect("openssl error");
        buffer
    }

    /// Relies on `MdCtx::digest_final` followed by `digest_init`: returns the
    /// digest of everything fed so far and restores the initial state.
    #[verifier::external_body]
    fn ctx_finalize_reset(&mut self) -> (r: [u8; 16])
        ensures
            r@ == md5_of(old(self).fed@),
            final(self).fed@ == Seq::<u8>::empty(),
    {
        let mut buffer = [0u8; 16];
        self.ctx.digest_final(&mut buffer).expect("openssl error");
        self.ctx.digest_init(openssl::md::Md::md5()).expect("openssl error");
        buffer
    }
}

impl Default for OpensslMd5 {
    /// Creates an engine in the initial, empty state.
    fn default() -> (r: Self)
        ensures
            r.bytes() == Seq::<u8>::empty(),
    {
        Md5Hasher::new()
    }
}

impl Md5Hasher for OpensslMd5 {
    closed spec fn bytes(&self) -> Seq<u8> {
        self.fed@
    }

    open spec fn spec_digest(s: Seq<u8>) -> Seq<u8> {
        md5_of(s)
    }

    fn new() -> Self {
        OpensslMd5 { ctx: fresh_openssl_ctx(), fed: Ghost(Seq::empty()) }
    }

    fn update(&mut self, data: &[u8]) {
        self.ctx_update(data)
    }

    fn finalize(self) -> [u8; 16] {
        self.ctx_finalize()
    }

    fn finalize_reset(&mut self) -> [u8; 16] {
        self.ctx_finalize_reset()
    }
}

} // verus!
