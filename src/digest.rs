//! Digests of file contents: MD5, SHA-256 and SHA-512 computed together in a
//! single pass over the bytes, as lowercase hexadecimal text.
use vstd::prelude::*;


verus! {

/// A running SHA-256 computation of sha2: the bytes absorbed so far, ready to
/// take more or to give the digest.
#[verifier::external_body]
pub struct Sha256State {
    inner: sha2::Sha256,
}

/// A running SHA-512 computation of sha2: the bytes absorbed so far, ready to
/// take more or to give the digest.
#[verifier::external_body]
pub struct Sha512State {
    inner: sha2::Sha512,
}

#[verifier::external_type_specification]
#[verifier::external_body]
pub struct ExMd5Context(md5::Context);

/// The bytes fed so far into a SHA-256 state.
pub uninterp spec fn sha256_fed(h: Sha256State) -> Seq<u8>;

/// The bytes fed so far into a SHA-512 state.
pub uninterp spec fn sha512_fed(h: Sha512State) -> Seq<u8>;

/// The bytes fed so far into an MD5 context.
pub uninterp spec fn md5_fed(h: md5::Context) -> Seq<u8>;

/// The lowercase hexadecimal SHA-256 digest of `data`.
pub uninterp spec fn sha256_hex(data: Seq<u8>) -> Seq<char>;

/// The lowercase hexadecimal SHA-512 digest of `data`.
pub uninterp spec fn sha512_hex(data: Seq<u8>) -> Seq<char>;

/// The lowercase hexadecimal MD5 digest of `data`.
pub uninterp spec fn md5_hex(data: Seq<u8>) -> Seq<char>;

/// A lowercase hexadecimal digit.
pub open spec fn is_hex_digit(c: char) -> bool {
    ('0' <= c && c <= '9') || ('a' <= c && c <= 'f')
}

/// `s` is `n` lowercase hexadecimal digits.
pub open spec fn is_hex_of_len(s: Seq<char>, n: nat) -> bool {
    s.len() == n && forall|i: int| 0 <= i < s.len() ==> is_hex_digit(#[trigger] s[i])
}

/// Relies on `Digest::new` of sha2: a fresh SHA-256 state has absorbed nothing.
#[verifier::external_body]
fn sha256_start() -> (h: Sha256State)
    ensures
        sha256_fed(h) == Seq::<u8>::empty(),
{
    Sha256State { inner: <sha2::Sha256 as sha2::Digest>::new() }
}

/// Relies on `Digest::update` of sha2: the state absorbs `data` after what it
/// held.
#[verifier::external_body]
fn sha256_feed(h: &mut Sha256State, data: &[u8])
    ensures
        sha256_fed(*final(h)) == sha256_fed(*old(h)) + data@,
{
    sha2::Digest::update(&mut h.inner, data)
}

/// Relies on `Digest::finalize` of sha2 and the `LowerHex` form of its
/// 32-byte output: two lowercase digits per byte.
#[verifier::external_body]
fn sha256_finish(h: Sha256State) -> (r: String)
    ensures
        r@ == sha256_hex(sha256_fed(h)),
        is_hex_of_len(r@, 64),
{
    format!("{:x}", sha2::Digest::finalize(h.inner))
}

/// Relies on `Digest::new` of sha2: a fresh SHA-512 state has absorbed nothing.
#[verifier::external_body]
fn sha512_start() -> (h: Sha512State)
    ensures
        sha512_fed(h) == Seq::<u8>::empty(),
{
    Sha512State { inner: <sha2::Sha512 as sha2::Digest>::new() }
}

/// Relies on `Digest::update` of sha2: the state absorbs `data` after what it
/// held.
#[verifier::external_body]
fn sha512_feed(h: &mut Sha512State, data: &[u8])
    ensures
        sha512_fed(*final(h)) == sha512_fed(*old(h)) + data@,
{
    sha2::Digest::update(&mut h.inner, data)
}

/// Relies on `Digest::finalize` of sha2 and the `LowerHex` form of its
/// 64-byte output: two lowercase digits per byte.
#[verifier::external_body]
fn sha512_finish(h: Sha512State) -> (r: String)
    ensures
        r@ == sha512_hex(sha512_fed(h)),
        is_hex_of_len(r@, 128),
{
    format!("{:x}", sha2::Digest::finalize(h.inner))
}

/// Relies on `md5::Context::new`: a fresh context has absorbed nothing.
#[verifier::external_body]
fn md5_start() -> (h: md5::Context)
    ensures
        md5_fed(h) == Seq::<u8>::empty(),
{
    md5::Context::new()
}

/// Relies on `md5::Context::consume`: the context absorbs `data` after what
/// it held.
#[verifier::external_body]
fn md5_feed(h: &mut md5::Context, data: &[u8])
    ensures
        md5_fed(*final(h)) == md5_fed(*old(h)) + data@,
{
    h.consume(data)
}

/// Relies on `md5::Context::compute` and the `LowerHex` form of
/// `md5::Digest`: `{:02x}` for each of its 16 bytes.
#[verifier::external_body]
fn md5_finish(h: md5::Context) -> (r: String)
    ensures
        r@ == md5_hex(md5_fed(h)),
        is_hex_of_len(r@, 32),
{
    format!("{:x}", h.compute())
}

/// The text that stands in a record for a value that was not computed.
pub open spec fn not_calculated() -> Seq<char> {
    "Not calculated"@
}

pub fn not_calculated_text() -> (r: String)
    ensures
        r@ == not_calculated(),
{
    String::from_str("Not calculated")
}

/// The three digest fields of a record for `data`, given which digests were
/// asked for.
pub open spec fn digest_fields(data: Seq<u8>, md5: bool, sha256: bool, sha512: bool) -> (
    Seq<char>,
    Seq<char>,
    Seq<char>,
) {
    (
        if md5 { md5_hex(data) } else { not_calculated() },
        if sha256 { sha256_hex(data) } else { not_calculated() },
        if sha512 { sha512_hex(data) } else { not_calculated() },
    )
}

/// Digest states for the algorithms asked for, all fed the same bytes.
pub struct MultiDigest {
    md5: Option<md5::Context>,
    sha256: Option<Sha256State>,
    sha512: Option<Sha512State>,
    fed: Ghost<Seq<u8>>,
}

impl MultiDigest {
    /// The bytes fed so far.
    pub closed spec fn data(&self) -> Seq<u8> {
        self.fed@
    }

    pub closed spec fn wants_md5(&self) -> bool {
        self.md5 is Some
    }

    pub closed spec fn wants_sha256(&self) -> bool {
        self.sha256 is Some
    }

    pub closed spec fn wants_sha512(&self) -> bool {
        self.sha512 is Some
    }

    pub closed spec fn wf(&self) -> bool {
        &&& (self.md5 matches Some(h) ==> md5_fed(h) == self.fed@)
        &&& (self.sha256 matches Some(h) ==> sha256_fed(h) == self.fed@)
        &&& (self.sha512 matches Some(h) ==> sha512_fed(h) == self.fed@)
    }

    /// Starts the digests asked for, with nothing fed yet.
    pub fn new(md5: bool, sha256: bool, sha512: bool) -> (r: MultiDigest)
        ensures
            r.wf(),
            r.data() == Seq::<u8>::empty(),
            r.wants_md5() == md5,
            r.wants_sha256() == sha256,
            r.wants_sha512() == sha512,
    {
        MultiDigest {
            md5: if md5 { Some(md5_start()) } else { None },
            sha256: if sha256 { Some(sha256_start()) } else { None },
            sha512: if sha512 { Some(sha512_start()) } else { None },
            fed: Ghost(Seq::empty()),
        }
    }

    /// Feeds the next chunk of the file to every digest asked for.
    pub fn update(&mut self, chunk: &[u8])
        requires
            old(self).wf(),
        ensures
            final(self).wf(),
            final(self).data() == old(self).data() + chunk@,
            final(self).wants_md5() == old(self).wants_md5(),
            final(self).wants_sha256() == old(self).wants_sha256(),
            final(self).wants_sha512() == old(self).wants_sha512(),
    {
        if let Some(h) = &mut self.md5 {
            md5_feed(h, chunk);
        }
        if let Some(h) = &mut self.sha256 {
            sha256_feed(h, chunk);
        }
        if let Some(h) = &mut self.sha512 {
            sha512_feed(h, chunk);
        }
        self.fed = Ghost(self.fed@ + chunk@);
    }

    /// The MD5, SHA-256 and SHA-512 fields of a record: the digest of all bytes
    /// fed for each algorithm asked for, the "not calculated" text otherwise.
    pub fn finish(self) -> (r: (String, String, String))
        requires
            self.wf(),
        ensures
            (r.0@, r.1@, r.2@) == digest_fields(
                self.data(),
                self.wants_md5(),
                self.wants_sha256(),
                self.wants_sha512(),
            ),
            self.wants_md5() ==> is_hex_of_len(r.0@, 32),
            self.wants_sha256() ==> is_hex_of_len(r.1@, 64),
            self.wants_sha512() ==> is_hex_of_len(r.2@, 128),
    {
        let m = match self.md5 {
            Some(h) => md5_finish(h),
            None => not_calculated_text(),
        };
        let a = match self.sha256 {
            Some(h) => sha256_finish(h),
            None => not_calculated_text(),
        };
        let b = match self.sha512 {
            Some(h) => sha512_finish(h),
            None => not_calculated_text(),
        };
        (m, a, b)
    }
}

/// The digest fields of `data` when it arrives in the chunks `chunks`.
pub fn digest_chunks(chunks: &Vec<Vec<u8>>, md5: bool, sha256: bool, sha512: bool) -> (r: (
    String,
    String,
    String,
))
    ensures
        (r.0@, r.1@, r.2@) == digest_fields(concat_chunks(chunks@), md5, sha256, sha512),
{
    let mut d = MultiDigest::new(md5, sha256, sha512);
    let mut i: usize = 0;
    while i < chunks.len()
        invariant
            i <= chunks.len(),
            d.wf(),
            d.data() == concat_chunks(chunks@.subrange(0, i as int)),
            d.wants_md5() == md5,
            d.wants_sha256() == sha256,
            d.wants_sha512() == sha512,
        decreases chunks.len() - i,
    {
        d.update(chunks[i].as_slice());
        assert(chunks@.subrange(0, i + 1).drop_last() =~= chunks@.subrange(0, i as int));
        i = i + 1;
    }
    assert(chunks@.subrange(0, chunks.len() as int) =~= chunks@);
    d.finish()
}

/// The bytes of `chunks`, one after another.
pub open spec fn concat_chunks(chunks: Seq<Vec<u8>>) -> Seq<u8>
    decreases chunks.len(),
{
    if chunks.len() == 0 {
        seq![]
    } else {
        concat_chunks(chunks.drop_last()) + chunks.last()@
    }
}

/// Asking for several digests at once gives each the same value as asking
/// for it alone: the field of each algorithm depends only on the bytes and
/// on whether that algorithm was asked for.
pub proof fn lemma_digests_independent(data: Seq<u8>, md5: bool, sha256: bool, sha512: bool)
    ensures
        digest_fields(data, md5, sha256, sha512).0 == digest_fields(data, md5, false, false).0,
        digest_fields(data, md5, sha256, sha512).1 == digest_fields(data, false, sha256, false).1,
        digest_fields(data, md5, sha256, sha512).2 == digest_fields(data, false, false, sha512).2,
{
}

/// Cutting the same bytes into different chunks gives the same digests.
pub proof fn lemma_chunking_irrelevant(
    a: Seq<Vec<u8>>,
    b: Seq<Vec<u8>>,
    md5: bool,
    sha256: bool,
    sha512: bool,
)
    requires
        concat_chunks(a) == concat_chunks(b),
    ensures
        digest_fields(concat_chunks(a), md5, sha256, sha512) == digest_fields(
            concat_chunks(b),
            md5,
            sha256,
            sha512,
        ),
{
}

} // verus!
