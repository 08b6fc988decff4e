use efitools::guid::Guid;
use efitools::uefi::{Error, Signature, SignatureList, SignatureX509};

const OWNER: &str = "00112233-4455-6677-8899-aabbccddeeff";

const CERT_PEM: &str = "-----BEGIN CERTIFICATE-----\nMAoCAQUEBWhlbGxv\n-----END CERTIFICATE-----\n";

const CERT_DER: [u8; 12] = [0x30, 0x0a, 0x02, 0x01, 0x05, 0x04, 0x05, 0x68, 0x65, 0x6c, 0x6c, 0x6f];

const X509_TYPE: [u8; 16] = [
    0xa1, 0x59, 0xc0, 0xa5, 0xe4, 0x94, 0xa7, 0x4a, 0x87, 0xb5, 0xab, 0x15, 0x5c, 0x2b, 0xf0, 0x72,
];

fn cert(bytes: &[u8]) -> SignatureX509 {
    SignatureX509 {
        der_encoded_cert: bytes.to_vec(),
    }
}

fn owner_bytes(owner: &Guid) -> Vec<u8> {
    let mut v = Vec::new();
    owner.serialize(&mut v);
    v
}

#[test]
fn test_signature_list() {
    let owner: Guid = OWNER.parse().unwrap();
    let sig_list = SignatureList::from_x509_pem(CERT_PEM.as_bytes(), owner).unwrap();
    let mut bytes = Vec::new();
    sig_list.serialize(&mut bytes).unwrap();

    let mut expected: Vec<u8> = X509_TYPE.to_vec();
    expected.extend_from_slice(&[56, 0, 0, 0]);
    expected.extend_from_slice(&[0, 0, 0, 0]);
    expected.extend_from_slice(&[28, 0, 0, 0]);
    expected.extend_from_slice(&[
        0x00, 0x11, 0x22, 0x33, 0x44, 0x55, 0x66, 0x77, 0x88, 0x99, 0xaa, 0xbb, 0xcc, 0xdd, 0xee,
        0xff,
    ]);
    expected.extend_from_slice(&CERT_DER);
    assert_eq!(bytes, expected);
    assert_eq!(sig_list.serialized_size(), bytes.len());
}

#[test]
fn from_x509_pem_keeps_decoded_certificate() {
    let owner = Guid::nil();
    let from_pem = SignatureList::from_x509_pem(CERT_PEM.as_bytes(), owner).unwrap();
    let from_der = SignatureList::from_x509_der(CERT_DER.to_vec(), owner);
    assert_eq!(from_pem, from_der);
}

#[test]
fn from_x509_pem_rejects_undecodable_input() {
    assert!(SignatureList::from_x509_pem(b"", Guid::nil()).is_none());
    assert!(SignatureList::from_x509_pem(b"no block here\n", Guid::nil()).is_none());
    let unfinished = "-----BEGIN CERTIFICATE-----\nMAoCAQUEBWhlbGxv\n";
    assert!(SignatureList::from_x509_pem(unfinished.as_bytes(), Guid::nil()).is_none());
}

#[test]
fn empty_list_size() {
    let list: SignatureList<SignatureX509> = SignatureList::new();
    assert_eq!(list.serialized_size(), 28);
    let mut bytes = Vec::new();
    list.serialize(&mut bytes).unwrap();
    let mut expected: Vec<u8> = X509_TYPE.to_vec();
    expected.extend_from_slice(&[28, 0, 0, 0, 0, 0, 0, 0, 0, 0, 0, 0]);
    assert_eq!(bytes, expected);
}

#[test]
fn differently_sized_certificates_fail() {
    let mut list = SignatureList::new();
    list.add(cert(&[1, 2, 3]), Guid::nil());
    list.add(cert(&[4, 5]), Guid::nil());
    let mut bytes = vec![9u8];
    assert_eq!(
        list.serialize(&mut bytes),
        Err(Error::DifferentlySizedSignatures)
    );
    assert_eq!(bytes, vec![9u8]);
    assert_eq!(list.serialized_size(), 28 + 19 + 18);
}

#[test]
fn later_size_mismatch_fails() {
    let mut list = SignatureList::new();
    list.add(cert(&[1]), Guid::nil());
    list.add(cert(&[2]), Guid::nil());
    list.add(cert(&[3, 4]), Guid::nil());
    let mut bytes = Vec::new();
    assert_eq!(
        list.serialize(&mut bytes),
        Err(Error::DifferentlySizedSignatures)
    );
    assert!(bytes.is_empty());
}

#[test]
fn equally_sized_certificates_keep_append_order() {
    let first: Guid = OWNER.parse().unwrap();
    let second = Guid::nil();
    let mut list = SignatureList::new();
    list.add(cert(&[0xa1, 0xa2]), first);
    list.add(cert(&[0xb1, 0xb2]), second);
    let mut bytes = Vec::new();
    assert_eq!(list.serialize(&mut bytes), Ok(()));

    let mut expected: Vec<u8> = X509_TYPE.to_vec();
    expected.extend_from_slice(&[64, 0, 0, 0]);
    expected.extend_from_slice(&[0, 0, 0, 0]);
    expected.extend_from_slice(&[18, 0, 0, 0]);
    expected.extend(owner_bytes(&first));
    expected.extend_from_slice(&[0xa1, 0xa2]);
    expected.extend(owner_bytes(&second));
    expected.extend_from_slice(&[0xb1, 0xb2]);
    assert_eq!(bytes, expected);
    assert_eq!(list.serialized_size(), 64);
}

#[test]
fn serialize_leaves_list_usable() {
    let mut list = SignatureList::new();
    list.add(cert(&[7]), Guid::nil());
    let mut once = Vec::new();
    list.serialize(&mut once).unwrap();
    let mut twice = Vec::new();
    list.serialize(&mut twice).unwrap();
    assert_eq!(once, twice);
    list.add(cert(&[8]), Guid::nil());
    let mut again = Vec::new();
    list.serialize(&mut again).unwrap();
    assert_eq!(again.len(), 28 + 2 * 17);
}

#[test]
fn x509_kind_constants() {
    let mut bytes = Vec::new();
    SignatureX509::guid().serialize(&mut bytes);
    assert_eq!(bytes, X509_TYPE.to_vec());
    assert_eq!(SignatureX509::header_size(), 0);
    let mut header = Vec::new();
    SignatureX509::serialize_header(&mut header);
    assert!(header.is_empty());
    let c = cert(&[1, 2, 3]);
    assert_eq!(c.serialized_size(), 3);
    let mut payload = Vec::new();
    c.serialize(&mut payload);
    assert_eq!(payload, vec![1u8, 2, 3]);
}

#[test]
fn entries_stand_at_their_offsets() {
    let owners: [Guid; 3] = [
        Guid::nil(),
        OWNER.parse().unwrap(),
        "ffeeddcc-bbaa-9988-7766-554433221100".parse().unwrap(),
    ];
    let mut list = SignatureList::new();
    for (k, owner) in owners.iter().enumerate() {
        list.add(cert(&[k as u8; 3]), *owner);
    }
    let mut bytes = Vec::new();
    list.serialize(&mut bytes).unwrap();
    assert_eq!(bytes.len(), 28 + 3 * 19);
    for (k, owner) in owners.iter().enumerate() {
        let start = 28 + k * 19;
        let mut entry = owner_bytes(owner);
        entry.extend_from_slice(&[k as u8; 3]);
        assert_eq!(&bytes[start..start + 19], &entry[..]);
    }
}
