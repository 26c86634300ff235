//! The transform parameters exchanged with the blob manager, as plain values.

use vstd::prelude::*;

verus! {

/// How the plaintext of an AES-CBC stream is padded.
#[derive(Clone, Debug, PartialEq, Eq)]
pub enum Padding {
    /// No padding: the plaintext fills the last block.
    Passthrough,
    /// ISO 10126 padding; the padding bytes themselves when they are known.
    Iso10126(Vec<u8>),
    /// PKCS #7 padding.
    Pkcs7,
}

/// The padding message, whose one field may be absent.
#[derive(Clone, Debug, PartialEq, Eq)]
pub struct AesCbcPadding {
    pub padding: Option<Padding>,
}

/// Parameters of an AES-CBC decryption.
#[derive(Clone, Debug, PartialEq, Eq)]
pub struct TransformAesCbcParameters {
    pub key: Option<Vec<u8>>,
    pub iv: Option<Vec<u8>>,
    pub iv_prepended: Option<bool>,
    pub padding: Option<AesCbcPadding>,
}

/// Parameters of a deflate decompression.
#[derive(Clone, Debug, PartialEq, Eq)]
pub struct TransformDeflateParameters {}

/// One transform from a source blob to a derived blob.
#[derive(Clone, Debug, PartialEq, Eq)]
pub enum Transform {
    DecDeflate(TransformDeflateParameters),
    DecAesCbc(TransformAesCbcParameters),
}

/// The bytes of an optional byte field, empty when it is absent.
pub open spec fn opt_bytes(b: Option<Vec<u8>>) -> Seq<u8> {
    match b {
        Some(v) => v@,
        None => Seq::empty(),
    }
}

impl TransformAesCbcParameters {
    /// The key, empty when it is absent.
    pub fn key(&self) -> (k: &[u8])
        ensures
            k@ == opt_bytes(self.key),
    {
        match &self.key {
            Some(k) => k.as_slice(),
            None => &[],
        }
    }

    /// The initialisation vector, empty when it is absent.
    pub fn iv(&self) -> (iv: &[u8])
        ensures
            iv@ == opt_bytes(self.iv),
    {
        match &self.iv {
            Some(v) => v.as_slice(),
            None => &[],
        }
    }

    /// Whether the initialisation vector leads the source, false when absent.
    pub fn iv_prepended(&self) -> (b: bool)
        ensures
            b == (self.iv_prepended == Some(true)),
    {
        match self.iv_prepended {
            Some(b) => b,
            None => false,
        }
    }
}

} // verus!
