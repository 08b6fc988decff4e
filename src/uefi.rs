use crate::guid::Guid;
use crate::{le32, serialize_u32};
use vstd::prelude::*;

verus! {

/// Why a signature list cannot be serialized.
#[derive(Debug, Clone, Copy, PartialEq, Eq, Structural)]
pub enum Error {
    /// The entries of a list do not all have the same size.
    DifferentlySizedSignatures,
}

/// A kind of signature that a signature list can hold.
///
/// Each kind has a type identifier and a header that the list writes once,
/// and each signature of the kind writes its own payload.
pub trait Signature: Sized {
    /// The type identifier of this kind.
    spec fn spec_guid() -> Guid;

    /// Bytes of the header shared by a list of this kind.
    spec fn spec_header() -> Seq<u8>;

    /// Bytes of the payload of this signature.
    spec fn spec_payload(&self) -> Seq<u8>;

    /// The type identifier of this kind.
    fn guid() -> (r: Guid)
        ensures
            r == Self::spec_guid(),
    ;

    /// Appends the shared header to `buf`.
    fn serialize_header(buf: &mut Vec<u8>)
        ensures
            final(buf)@ == old(buf)@ + Self::spec_header(),
    ;

    /// Number of bytes of the shared header.
    fn header_size() -> (r: usize)
        ensures
            r == Self::spec_header().len(),
    ;

    /// Appends the payload of this signature to `buf`.
    fn serialize(&self, buf: &mut Vec<u8>)
        ensures
            final(buf)@ == old(buf)@ + self.spec_payload(),
    ;

    /// Number of bytes of the payload of this signature.
    fn serialized_size(&self) -> (r: usize)
        ensures
            r == self.spec_payload().len(),
    ;
}

/// An X.509 certificate, held DER-encoded.
#[derive(Clone, Debug, PartialEq, Eq)]
pub struct SignatureX509 {
    pub der_encoded_cert: Vec<u8>,
}

impl Signature for SignatureX509 {
    /// EFI_CERT_X509_GUID, a5c059a1-94e4-4aa7-87b5-ab155c2bf072.
    open spec fn spec_guid() -> Guid {
        Guid {
            time_low: 0xa5c059a1,
            time_mid: 0x94e4,
            time_high_and_version: 0x4aa7,
            clock_seq_high_and_reserved: 0x87,
            clock_seq_low: 0xb5,
            node: [0xab, 0x15, 0x5c, 0x2b, 0xf0, 0x72],
        }
    }

    open spec fn spec_header() -> Seq<u8> {
        Seq::empty()
    }

    open spec fn spec_payload(&self) -> Seq<u8> {
        self.der_encoded_cert@
    }

    fn guid() -> (r: Guid) {
        let r = Guid::from_fields(
            0xa5c059a1,
            0x94e4,
            0x4aa7,
            &[0x87, 0xb5, 0xab, 0x15, 0x5c, 0x2b, 0xf0, 0x72],
        );
        assert(r.node@ =~= Self::spec_guid().node@);
        broadcast use vstd::array::axiom_array_ext_equal;
        assert(r.node =~= Self::spec_guid().node);
        r
    }

    fn serialize_header(buf: &mut Vec<u8>) {
        assert(buf@ =~= buf@ + Self::spec_header());
    }

    fn header_size() -> (r: usize) {
        0
    }

    fn serialize(&self, buf: &mut Vec<u8>) {
        let ghost start = buf@;
        let mut i: usize = 0;
        while i < self.der_encoded_cert.len()
            invariant
                0 <= i <= self.der_encoded_cert@.len(),
                buf@ == start + self.der_encoded_cert@.subrange(0, i as int),
            decreases self.der_encoded_cert@.len() - i,
        {
            buf.push(self.der_encoded_cert[i]);
            i += 1;
            assert(buf@ =~= start + self.der_encoded_cert@.subrange(0, i as int));
        }
        assert(self.der_encoded_cert@.subrange(0, i as int) =~= self.der_encoded_cert@);
    }

    fn serialized_size(&self) -> (r: usize) {
        self.der_encoded_cert.len()
    }
}

/// What `x509_parser::pem::parse_x509_pem` decodes from `pem`: the data of
/// its first PEM block, or `None` where it reports an error.
pub uninterp spec fn pem_block_contents(pem: Seq<u8>) -> Option<Seq<u8>>;

/// Relies on x509_parser::pem::parse_x509_pem: the base64-decoded data of
/// the first PEM block, which depends on the input bytes alone; input with
/// no bytes holds no block.
#[verifier::external_body]
fn pem_to_der(pem: &[u8]) -> (r: Option<Vec<u8>>)
    ensures
        match r {
            Some(der) => pem_block_contents(pem@) == Some(der@),
            None => pem_block_contents(pem@) is None,
        },
        pem@.len() == 0 ==> r is None,
{
    match x509_parser::pem::parse_x509_pem(pem) {
        Ok((_, block)) => Some(block.contents),
        Err(_) => None,
    }
}

/// A signature together with the identifier of its owner.
///
/// See UEFI "32.4.1 Signature Database".
#[derive(Clone, Debug, PartialEq, Eq)]
struct SignatureData<T: Signature> {
    owner: Guid,
    data: T,
}

impl<T: Signature> SignatureData<T> {
    fn serialize(&self, buf: &mut Vec<u8>)
        ensures
            final(buf)@ == old(buf)@ + entry_bytes((self.owner, self.data)),
    {
        self.owner.serialize(buf);
        self.data.serialize(buf);
        assert(buf@ =~= old(buf)@ + entry_bytes((self.owner, self.data)));
    }

    fn serialized_size(&self) -> (r: usize)
        requires
            entry_size((self.owner, self.data)) <= usize::MAX,
        ensures
            r == entry_size((self.owner, self.data)),
    {
        Guid::serialized_size() + self.data.serialized_size()
    }
}

/// Size of one entry of a list: the owner identifier and the payload.
pub open spec fn entry_size<T: Signature>(e: (Guid, T)) -> int {
    16 + e.1.spec_payload().len() as int
}

/// Bytes of one entry of a list: the owner identifier, then the payload.
pub open spec fn entry_bytes<T: Signature>(e: (Guid, T)) -> Seq<u8> {
    e.0.spec_bytes() + e.1.spec_payload()
}

/// Sum of the sizes of the entries.
pub open spec fn entries_size<T: Signature>(s: Seq<(Guid, T)>) -> int
    decreases s.len(),
{
    if s.len() == 0 {
        0
    } else {
        entries_size(s.drop_last()) + entry_size(s.last())
    }
}

/// The entries' bytes, one after the other in order.
pub open spec fn entries_bytes<T: Signature>(s: Seq<(Guid, T)>) -> Seq<u8>
    decreases s.len(),
{
    if s.len() == 0 {
        Seq::empty()
    } else {
        entries_bytes(s.drop_last()) + entry_bytes(s.last())
    }
}

/// Whether all entries have the size of the first.
pub open spec fn uniform_size<T: Signature>(s: Seq<(Guid, T)>) -> bool {
    forall|i: int| 0 <= i < s.len() ==> entry_size(#[trigger] s[i]) == entry_size(s[0])
}

/// The size written for each entry: that of the first, or 0 for no entry.
pub open spec fn signature_size<T: Signature>(s: Seq<(Guid, T)>) -> int {
    if s.len() == 0 {
        0
    } else {
        entry_size(s[0])
    }
}

/// Size of the whole list: type identifier, three size fields, header
/// and entries.
pub open spec fn list_size<T: Signature>(s: Seq<(Guid, T)>) -> int {
    16 + 4 + 4 + 4 + T::spec_header().len() as int + entries_size(s)
}

/// A size as the 32-bit field holds it: its low 32 bits.
pub open spec fn size_field(n: int) -> u32 {
    (n % 0x1_0000_0000) as u32
}

/// The bytes of a list with these entries.
pub open spec fn list_bytes<T: Signature>(s: Seq<(Guid, T)>) -> Seq<u8> {
    T::spec_guid().spec_bytes() + le32(size_field(list_size(s))) + le32(
        size_field(T::spec_header().len() as int),
    ) + le32(size_field(signature_size(s))) + T::spec_header() + entries_bytes(s)
}

/// The sizes add up to no less than zero and no less than any one entry.
proof fn lemma_entries_size_bounds<T: Signature>(s: Seq<(Guid, T)>)
    ensures
        entries_size(s) >= 0,
        forall|i: int| 0 <= i < s.len() ==> entry_size(#[trigger] s[i]) <= entries_size(s),
    decreases s.len(),
{
    if s.len() > 0 {
        lemma_entries_size_bounds(s.drop_last());
        assert forall|i: int| 0 <= i < s.len() implies entry_size(#[trigger] s[i]) <= entries_size(
            s,
        ) by {
            if i < s.len() - 1 {
                assert(s[i] == s.drop_last()[i]);
            }
        }
    }
}

/// A prefix of the entries is no larger than all of them.
proof fn lemma_entries_size_prefix<T: Signature>(s: Seq<(Guid, T)>, n: int)
    requires
        0 <= n <= s.len(),
    ensures
        entries_size(s.subrange(0, n)) <= entries_size(s),
        entries_size(s.subrange(0, n)) >= 0,
    decreases s.len() - n,
{
    lemma_entries_size_bounds(s.subrange(0, n));
    if n < s.len() {
        lemma_entries_size_prefix(s, n + 1);
        assert(s.subrange(0, n + 1).drop_last() =~= s.subrange(0, n));
    } else {
        assert(s.subrange(0, n) =~= s);
    }
}

/// A list of signatures of one kind, each with its owner.
///
/// See UEFI "32.4.1 Signature Database".
#[derive(Clone, Debug, PartialEq, Eq)]
pub struct SignatureList<T: Signature> {
    signatures: Vec<SignatureData<T>>,
}

impl SignatureList<SignatureX509> {
    /// A list that holds the one DER-encoded certificate, with its owner.
    pub fn from_x509_der(der: Vec<u8>, owner: Guid) -> (r: SignatureList<SignatureX509>)
        ensures
            r.entries().len() == 1,
            r.entries()[0].0 == owner,
            r.entries()[0].1.der_encoded_cert@ == der@,
    {
        let mut r = SignatureList::new();
        r.add(SignatureX509 { der_encoded_cert: der }, owner);
        r
    }

    /// A list that holds the certificate of the first PEM block of `pem`,
    /// with its owner; `None` where that block cannot be decoded.
    pub fn from_x509_pem(pem: &[u8], owner: Guid) -> (r: Option<SignatureList<SignatureX509>>)
        ensures
            match pem_block_contents(pem@) {
                Some(der) => r matches Some(l) && l.entries().len() == 1 && l.entries()[0].0
                    == owner && l.entries()[0].1.der_encoded_cert@ == der,
                None => r is None,
            },
    {
        match pem_to_der(pem) {
            Some(der) => Some(SignatureList::from_x509_der(der, owner)),
            None => None,
        }
    }
}

impl<T: Signature> SignatureList<T> {
    /// The entries, as (owner, signature) pairs in the order they were added.
    pub closed spec fn entries(&self) -> Seq<(Guid, T)> {
        self.signatures@.map_values(|d: SignatureData<T>| (d.owner, d.data))
    }

    pub fn new() -> (r: SignatureList<T>)
        ensures
            r.entries() == Seq::<(Guid, T)>::empty(),
    {
        let r = SignatureList { signatures: Vec::new() };
        assert(r.entries() =~= Seq::<(Guid, T)>::empty());
        r
    }

    /// Appends a signature with its owner; sizes are checked only when the
    /// list is serialized.
    pub fn add(&mut self, signature: T, owner: Guid)
        ensures
            final(self).entries() == old(self).entries().push((owner, signature)),
    {
        self.signatures.push(SignatureData { data: signature, owner });
        assert(self.entries() =~= old(self).entries().push((owner, signature)));
    }

    /// Total number of bytes of the serialized list.
    pub fn serialized_size(&self) -> (r: usize)
        requires
            list_size(self.entries()) <= usize::MAX,
        ensures
            r == list_size(self.entries()),
    {
        let ghost s = self.entries();
        proof {
            lemma_entries_size_bounds(s);
        }
        let mut total: usize = Guid::serialized_size() + 4 + 4 + 4 + T::header_size();
        let mut i: usize = 0;
        assert(s.subrange(0, 0) =~= Seq::<(Guid, T)>::empty());
        while i < self.signatures.len()
            invariant
                s == self.entries(),
                0 <= i <= s.len(),
                s.len() == self.signatures@.len(),
                list_size(s) <= usize::MAX,
                entries_size(s) >= 0,
                total == 28 + T::spec_header().len() + entries_size(s.subrange(0, i as int)),
            decreases s.len() - i,
        {
            proof {
                lemma_entries_size_bounds(s.subrange(0, i + 1));
                assert(s.subrange(0, i + 1).drop_last() =~= s.subrange(0, i as int));
                lemma_entries_size_prefix(s, i + 1);
            }
            total = total + self.signatures[i].serialized_size();
            i += 1;
        }
        assert(s.subrange(0, s.len() as int) =~= s);
        total
    }

    /// The size of each entry, or the error if they differ.
    fn get_signature_size(&self) -> (r: Result<usize, Error>)
        requires
            list_size(self.entries()) <= usize::MAX,
        ensures
            match r {
                Ok(n) => uniform_size(self.entries()) && n == signature_size(self.entries()),
                Err(e) => e == Error::DifferentlySizedSignatures && !uniform_size(self.entries()),
            },
    {
        let ghost s = self.entries();
        proof {
            lemma_entries_size_bounds(s);
        }
        if self.signatures.len() == 0 {
            return Ok(0);
        }
        assert(entry_size(s[0]) <= entries_size(s));
        assert(s[0] == (self.signatures@[0].owner, self.signatures@[0].data));
        let size = self.signatures[0].serialized_size();
        let mut i: usize = 1;
        while i < self.signatures.len()
            invariant
                s == self.entries(),
                s.len() == self.signatures@.len(),
                1 <= i <= s.len(),
                list_size(s) <= usize::MAX,
                entries_size(s) >= 0,
                forall|j: int| 0 <= j < s.len() ==> entry_size(#[trigger] s[j]) <= entries_size(s),
                size == entry_size(s[0]),
                forall|j: int| 0 <= j < i ==> entry_size(#[trigger] s[j]) == entry_size(s[0]),
            decreases s.len() - i,
        {
            assert(entry_size(s[i as int]) <= entries_size(s));
            assert(s[i as int] == (self.signatures@[i as int].owner, self.signatures@[i as int].data));
            if self.signatures[i].serialized_size() != size {
                return Err(Error::DifferentlySizedSignatures);
            }
            i += 1;
        }
        Ok(size)
    }

    /// Appends the serialized list to `buf`: the type identifier, the
    /// sizes of the list, of the header and of each entry (32-bit,
    /// little-endian), the header, then each owner and payload in the
    /// order they were added. Where the entries differ in size nothing is
    /// appended.
    pub fn serialize(&self, buf: &mut Vec<u8>) -> (r: Result<(), Error>)
        requires
            list_size(self.entries()) <= usize::MAX,
        ensures
            match r {
                Ok(()) => uniform_size(self.entries()) && final(buf)@ == old(buf)@ + list_bytes(
                    self.entries(),
                ),
                Err(e) => e == Error::DifferentlySizedSignatures && !uniform_size(self.entries())
                    && final(buf)@ == old(buf)@,
            },
    {
        let ghost s = self.entries();
        let signature_size = match self.get_signature_size() {
            Ok(n) => n,
            Err(e) => return Err(e),
        };
        let total = self.serialized_size();
        T::guid().serialize(buf);
        serialize_u32((total as u64 % 0x1_0000_0000) as u32, buf);
        serialize_u32((T::header_size() as u64 % 0x1_0000_0000) as u32, buf);
        serialize_u32((signature_size as u64 % 0x1_0000_0000) as u32, buf);
        T::serialize_header(buf);
        let ghost start = buf@;
        let mut i: usize = 0;
        assert(s.subrange(0, 0) =~= Seq::<(Guid, T)>::empty());
        while i < self.signatures.len()
            invariant
                s == self.entries(),
                s.len() == self.signatures@.len(),
                0 <= i <= s.len(),
                buf@ == start + entries_bytes(s.subrange(0, i as int)),
            decreases s.len() - i,
        {
            self.signatures[i].serialize(buf);
            proof {
                assert(s.subrange(0, i + 1).drop_last() =~= s.subrange(0, i as int));
                assert(s[i as int] == (self.signatures@[i as int].owner, self.signatures@[i as int].data));
            }
            i += 1;
            assert(buf@ =~= start + entries_bytes(s.subrange(0, i as int)));
        }
        assert(s.subrange(0, s.len() as int) =~= s);
        assert(buf@ =~= old(buf)@ + list_bytes(s));
        Ok(())
    }
}

/// An empty list is 28 bytes and its header long: the type identifier
/// and the three size fields.
pub proof fn lemma_empty_list_size<T: Signature>()
    ensures
        list_size(Seq::<(Guid, T)>::empty()) == 28 + T::spec_header().len(),
        list_size(Seq::<(Guid, SignatureX509)>::empty()) == 28,
{
}

/// Two certificates can share a list exactly when their DER encodings have
/// the same length, whoever owns them.
pub proof fn lemma_two_certificates_uniform(a: (Guid, SignatureX509), b: (Guid, SignatureX509))
    ensures
        uniform_size(seq![a, b]) <==> a.1.der_encoded_cert@.len() == b.1.der_encoded_cert@.len(),
{
    let s = seq![a, b];
    if uniform_size(s) {
        assert(entry_size(s[1]) == entry_size(s[0]));
    }
}

/// The entries' bytes are as long as their sizes add up to.
pub proof fn lemma_entries_bytes_len<T: Signature>(s: Seq<(Guid, T)>)
    ensures
        entries_bytes(s).len() == entries_size(s),
    decreases s.len(),
{
    if s.len() > 0 {
        lemma_entries_bytes_len(s.drop_last());
    }
}

/// A serialized list is exactly as long as the size it records.
pub proof fn lemma_list_bytes_len<T: Signature>(s: Seq<(Guid, T)>)
    ensures
        list_bytes(s).len() == list_size(s),
{
    lemma_entries_bytes_len(s);
}

/// Each entry's bytes stand in the serialized entries at the place that
/// the entries before it fill: entries come out in the order they were
/// added.
pub proof fn lemma_entry_in_place<T: Signature>(s: Seq<(Guid, T)>, i: int)
    requires
        0 <= i < s.len(),
    ensures
        entries_bytes(s).subrange(
            entries_size(s.subrange(0, i)),
            entries_size(s.subrange(0, i + 1)),
        ) == entry_bytes(s[i]),
    decreases s.len(),
{
    let last = s.len() - 1;
    if i == last {
        assert(s.subrange(0, i + 1) =~= s);
        assert(s.drop_last() =~= s.subrange(0, i));
        lemma_entries_bytes_len(s.drop_last());
        assert(entries_bytes(s).subrange(
            entries_size(s.subrange(0, i)),
            entries_size(s.subrange(0, i + 1)),
        ) =~= entry_bytes(s[i]));
    } else {
        let t = s.drop_last();
        assert(t.len() == s.len() - 1);
        lemma_entry_in_place(t, i);
        assert(t.subrange(0, i) =~= s.subrange(0, i));
        assert(t.subrange(0, i + 1) =~= s.subrange(0, i + 1));
        lemma_entries_bytes_len(t);
        lemma_entries_size_prefix(t, i + 1);
        lemma_entries_size_prefix(t, i);
        lemma_entries_size_prefix(t.subrange(0, i + 1), i);
        assert(t.subrange(0, i + 1).subrange(0, i) =~= t.subrange(0, i));
        let a = entries_bytes(t);
        assert(entries_bytes(s) == a + entry_bytes(s.last()));
        assert(entries_bytes(s).subrange(
            entries_size(s.subrange(0, i)),
            entries_size(s.subrange(0, i + 1)),
        ) =~= entries_bytes(t).subrange(
            entries_size(t.subrange(0, i)),
            entries_size(t.subrange(0, i + 1)),
        ));
    }
}

/// In entries that share one size, the first `n` fill `n` times that size.
proof fn lemma_uniform_prefix_size<T: Signature>(s: Seq<(Guid, T)>, n: int)
    requires
        uniform_size(s),
        0 <= n <= s.len(),
    ensures
        entries_size(s.subrange(0, n)) == n * signature_size(s),
    decreases n,
{
    if n == 0 {
        assert(s.subrange(0, 0) =~= Seq::<(Guid, T)>::empty());
    } else {
        lemma_uniform_prefix_size(s, n - 1);
        assert(s.subrange(0, n).drop_last() =~= s.subrange(0, n - 1));
        assert(entry_size(s[n - 1]) == entry_size(s[0]));
        let k = signature_size(s);
        assert(n * k == (n - 1) * k + k) by (nonlinear_arith);
    }
}

/// In a serialized list whose entries share one size, the entry added
/// `i`-th stands right after the header and the `i` entries added before
/// it: owner, then payload.
pub proof fn lemma_entry_offset<T: Signature>(s: Seq<(Guid, T)>, i: int)
    requires
        uniform_size(s),
        0 <= i < s.len(),
    ensures
        list_bytes(s).subrange(
            28 + T::spec_header().len() + i * signature_size(s),
            28 + T::spec_header().len() + (i + 1) * signature_size(s),
        ) == entry_bytes(s[i]),
{
    let h = T::spec_header().len() as int;
    let k = signature_size(s);
    let a = i * k;
    let b = (i + 1) * k;
    lemma_uniform_prefix_size(s, i);
    lemma_uniform_prefix_size(s, i + 1);
    lemma_entries_size_prefix(s, i + 1);
    lemma_entries_size_prefix(s, i);
    lemma_entry_in_place(s, i);
    lemma_entries_bytes_len(s);
    assert(entries_size(s.subrange(0, i)) == a);
    assert(entries_size(s.subrange(0, i + 1)) == b);
    let e = entries_bytes(s);
    assert(0 <= a && b <= e.len());
    assert(a <= b) by {
        lemma_entries_size_prefix(s.subrange(0, i + 1), i);
        assert(s.subrange(0, i + 1).subrange(0, i) =~= s.subrange(0, i));
    }
    let head = T::spec_guid().spec_bytes() + le32(size_field(list_size(s))) + le32(
        size_field(h),
    ) + le32(size_field(k)) + T::spec_header();
    assert(head.len() == 28 + h);
    assert(list_bytes(s) == head + e);
    lemma_subrange_after_head(head, e, a, b);
}

/// A slice of what follows a head is that slice of the tail.
proof fn lemma_subrange_after_head(head: Seq<u8>, tail: Seq<u8>, a: int, b: int)
    requires
        0 <= a <= b <= tail.len(),
    ensures
        (head + tail).subrange(head.len() + a, head.len() + b) == tail.subrange(a, b),
{
    assert((head + tail).subrange(head.len() + a, head.len() + b) =~= tail.subrange(a, b));
}

/// The serialized list of a single certificate: the certificate type
/// identifier, the total size, a zero header size, the entry size, then
/// the owner and the DER bytes.
pub proof fn lemma_single_certificate_layout(owner: Guid, cert: SignatureX509)
    ensures
        list_bytes(seq![(owner, cert)]) == SignatureX509::spec_guid().spec_bytes() + le32(
            size_field(44 + cert.der_encoded_cert@.len() as int),
        ) + le32(0) + le32(size_field(16 + cert.der_encoded_cert@.len() as int)) + owner.spec_bytes()
            + cert.der_encoded_cert@,
        list_bytes(seq![(owner, cert)]).len() == 44 + cert.der_encoded_cert@.len(),
{
    let s = seq![(owner, cert)];
    let n = cert.der_encoded_cert@.len() as int;
    let empty = Seq::<(Guid, SignatureX509)>::empty();
    assert(s.drop_last() =~= empty);
    assert(entries_size(empty) == 0);
    assert(entries_bytes(empty) == Seq::<u8>::empty());
    assert(entries_size(s) == 16 + n);
    assert(entries_bytes(s) =~= owner.spec_bytes() + cert.der_encoded_cert@);
    assert(size_field(list_size(s)) == size_field(44 + n));
    assert(size_field(SignatureX509::spec_header().len() as int) == 0);
    assert(size_field(signature_size(s)) == size_field(16 + n));
    assert(SignatureX509::spec_header() + entries_bytes(s) =~= owner.spec_bytes()
        + cert.der_encoded_cert@);
    assert(list_bytes(s) =~= SignatureX509::spec_guid().spec_bytes() + le32(size_field(44 + n))
        + le32(0) + le32(size_field(16 + n)) + (owner.spec_bytes() + cert.der_encoded_cert@));
}

} // verus!
