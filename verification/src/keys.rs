//! SSH public keys as plain values.
//!
//! Decoding and encoding the OpenSSH text form and hashing a key are left to
//! the SSH library.  What takes part in the lounge's rules is carried in
//! [`PublicKey`]: the binary key material by which a key is told from
//! another, its fingerprint, and the comment that came with it.

use vstd::prelude::*;

verus! {

/// `russh::keys::ssh_key::Error`, the error type of the SSH library's key
/// codec.  Nothing is known of its values.
#[verifier::external_type_specification]
#[verifier::external_body]
pub struct ExSshKeyError(russh::keys::ssh_key::Error);

/// An SSH public key: key material, fingerprint and comment.
#[derive(Debug, PartialEq, Eq)]
pub struct PublicKey {
    key_data: Vec<u8>,
    fingerprint: String,
    comment: String,
}

/// The mathematical content of a [`PublicKey`].
pub struct PublicKeyView {
    /// Canonical binary key material; two keys are the same key exactly when
    /// this is equal.
    pub key_data: Seq<u8>,
    /// SHA-256 fingerprint in its text form.
    pub fingerprint: Seq<char>,
    /// The comment field.
    pub comment: Seq<char>,
}

impl View for PublicKey {
    type V = PublicKeyView;

    closed spec fn view(&self) -> PublicKeyView {
        PublicKeyView {
            key_data: self.key_data@,
            fingerprint: self.fingerprint@,
            comment: self.comment@,
        }
    }
}

/// The key material and the comment that the SSH library's decoder reads
/// from one line in OpenSSH public-key format, or `None` where it rejects
/// the line.
pub uninterp spec fn openssh_decoded(line: Seq<char>) -> Option<(Seq<u8>, Seq<char>)>;

/// The text form of the SHA-256 fingerprint that the SSH library computes
/// for a key with the given key material.
pub uninterp spec fn sha256_fingerprint(key_data: Seq<u8>) -> Seq<char>;

/// The line in OpenSSH public-key format that the SSH library's encoder
/// writes for the given key material and comment, or `None` where it
/// cannot.
pub uninterp spec fn openssh_encoded(key_data: Seq<u8>, comment: Seq<char>) -> Option<Seq<char>>;

/// `russh::keys::PublicKey::from_openssh`, and `to_bytes`, `fingerprint`
/// and `comment` of the key that it returned.  The contract claims that
/// the outcome depends on the line alone: the line is accepted exactly when
/// [`openssh_decoded`] is `Some`, key material and comment are then what it
/// names, and the fingerprint is the one that [`sha256_fingerprint`] names
/// for the key material.  Nothing is claimed of the error.
#[verifier::external_body]
pub(crate) fn decode_openssh(line: &str) -> (res: Result<PublicKey, russh::keys::ssh_key::Error>)
    ensures
        res is Ok <==> openssh_decoded(line@) is Some,
        res matches Ok(key) ==> {
            &&& openssh_decoded(line@) == Some((key@.key_data, key@.comment))
            &&& key@.fingerprint == sha256_fingerprint(key@.key_data)
        },
{
    let key = russh::keys::PublicKey::from_openssh(line)?;
    Ok(PublicKey {
        key_data: key.to_bytes()?,
        fingerprint: key.fingerprint(russh::keys::HashAlg::Sha256).to_string(),
        comment: key.comment().to_string(),
    })
}

/// `russh::keys::PublicKey::from_bytes`, `set_comment` and `to_openssh`.
/// The contract claims that the outcome depends on key material and
/// comment alone, and gives it the name [`openssh_encoded`]: the line that
/// was written, or `None` where the key material does not decode or the
/// line cannot be written.
#[verifier::external_body]
pub(crate) fn encode_openssh(key_data: &Vec<u8>, comment: &str) -> (res: Option<String>)
    ensures
        res matches Some(line) ==> openssh_encoded(key_data@, comment@) == Some(line@),
        res is None ==> openssh_encoded(key_data@, comment@) is None,
{
    let mut key = russh::keys::PublicKey::from_bytes(key_data).ok()?;
    key.set_comment(comment);
    key.to_openssh().ok()
}

impl PublicKey {
    /// A key with the given key material, fingerprint and comment.
    pub fn new(key_data: Vec<u8>, fingerprint: String, comment: String) -> (key: PublicKey)
        ensures
            key@ == (PublicKeyView {
                key_data: key_data@,
                fingerprint: fingerprint@,
                comment: comment@,
            }),
    {
        PublicKey { key_data, fingerprint, comment }
    }

    /// The line in OpenSSH public-key format for this key and its comment,
    /// or `None` where the encoder cannot write it.
    pub fn to_openssh(&self) -> (res: Option<String>)
        ensures
            res matches Some(line) ==> openssh_encoded(self@.key_data, self@.comment) == Some(
                line@,
            ),
            res is None ==> openssh_encoded(self@.key_data, self@.comment) is None,
    {
        encode_openssh(&self.key_data, self.comment.as_str())
    }

    /// The binary key material.
    pub fn key_data(&self) -> (res: &Vec<u8>)
        ensures
            res@ == self@.key_data,
    {
        &self.key_data
    }

    /// The SHA-256 fingerprint in its text form.
    pub fn fingerprint(&self) -> (res: &str)
        ensures
            res@ == self@.fingerprint,
    {
        self.fingerprint.as_str()
    }

    /// The comment field.
    pub fn comment(&self) -> (res: &str)
        ensures
            res@ == self@.comment,
    {
        self.comment.as_str()
    }
}

impl Clone for PublicKey {
    fn clone(&self) -> (res: Self)
        ensures
            res@ == self@,
    {
        PublicKey {
            key_data: self.key_data.clone(),
            fingerprint: self.fingerprint.clone(),
            comment: self.comment.clone(),
        }
    }
}

} // verus!
