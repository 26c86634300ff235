//! Transforms that derive one blob from another, and the validation of their
//! parameters against the sizes of the source and the derived blob.

use vstd::prelude::*;
use vstd::slice::slice_to_vec;
use crate::transform_proto::{opt_bytes, AesCbcPadding, Padding, Transform, TransformAesCbcParameters};

verus! {

/// Why a transform could not be set up.
#[derive(Debug, PartialEq, Eq)]
pub enum TransformCreationError {
    WrongParameter { key: &'static str, reason: &'static str },
    WrongSize { reason: &'static str },
    NotReversible,
    NotImplemented,
}

/// A transform between a source blob and a derived blob.
pub trait TransformerBase {
    type Config;
    type StraightTransformer;
    type ReversedTransformer;

    /// Checks `config` against the sizes of the source and the derived blob.
    fn new(config: &Self::Config, src_size: u64, dst_size: u64) -> Result<
        Self,
        TransformCreationError,
    > where Self: core::marker::Sized;

    /// The transformer from source to derived blob.
    fn straight(&self) -> Self::StraightTransformer;

    /// The transformer from derived blob back to the source, when one exists.
    fn reversed(&self) -> Result<Self::ReversedTransformer, TransformCreationError>;
}

/// An AES key of one of the three lengths that AES allows.
enum AesKey {
    Aes128(Vec<u8>),
    Aes192(Vec<u8>),
    Aes256(Vec<u8>),
}

/// The padding, with its bytes as a sequence.
pub enum PaddingModel {
    Passthrough,
    Iso10126(Seq<u8>),
    Pkcs7,
}

pub open spec fn padding_model(p: Padding) -> PaddingModel {
    match p {
        Padding::Passthrough => PaddingModel::Passthrough,
        Padding::Iso10126(b) => PaddingModel::Iso10126(b@),
        Padding::Pkcs7 => PaddingModel::Pkcs7,
    }
}

/// What an AES-CBC transform holds: key, initialisation vector (absent when
/// it leads the source), padding and the two sizes.
pub struct AesCbcModel {
    pub key: Seq<u8>,
    pub iv: Option<Seq<u8>>,
    pub padding: PaddingModel,
    pub src_size: u64,
    pub dst_size: u64,
}

/// AES-CBC decryption of a source blob into a derived blob.
pub struct AesCbc {
    key: AesKey,
    iv: Option<Vec<u8>>,
    padding: Padding,
    src_size: u64,
    dst_size: u64,
}

pub struct DecAesCbc {}

pub struct EncAesCbc {}

impl AesCbc {
    pub closed spec fn view(&self) -> AesCbcModel {
        AesCbcModel {
            key: match self.key {
                AesKey::Aes128(k) => k@,
                AesKey::Aes192(k) => k@,
                AesKey::Aes256(k) => k@,
            },
            iv: match self.iv {
                Some(v) => Some(v@),
                None => None,
            },
            padding: padding_model(self.padding),
            src_size: self.src_size,
            dst_size: self.dst_size,
        }
    }
}

/// The padding that the parameters name, if any.
pub open spec fn config_padding(config: TransformAesCbcParameters) -> Option<Padding> {
    match config.padding {
        Some(p) => p.padding,
        None => None,
    }
}

/// The bytes that a prepended initialisation vector takes from the source.
pub open spec fn iv_overhead(config: TransformAesCbcParameters) -> u64 {
    if config.iv_prepended == Some(true) {
        16
    } else {
        0
    }
}

pub open spec fn wrong_parameter(key: &'static str, reason: &'static str) -> TransformCreationError {
    TransformCreationError::WrongParameter { key, reason }
}

pub open spec fn wrong_size(reason: &'static str) -> TransformCreationError {
    TransformCreationError::WrongSize { reason }
}

/// The check of the padding against the plaintext size `dst` and the
/// ciphertext size `w` (the source without a prepended initialisation vector).
pub open spec fn check_padding(padding: Padding, w: u64, dst: u64) -> Option<TransformCreationError> {
    match padding {
        Padding::Passthrough => if dst != w {
            Some(
                wrong_size(
                    "dst size should be same as src size (minus prepended iv if exists) if there are no padding",
                ),
            )
        } else {
            None
        },
        Padding::Iso10126(bytes) => if bytes@.len() == 0 {
            if dst == w {
                Some(
                    wrong_size(
                        "dst size should smaller than src size (minus prepended iv if exists) for current padding type",
                    ),
                )
            } else {
                None
            }
        } else if bytes@.len() != w - dst {
            Some(wrong_parameter("padding.iso10126", "wrong padding size"))
        } else if bytes@.last() != bytes@.len() {
            Some(wrong_parameter("padding.iso10126", "padding mismatched with size"))
        } else {
            None
        },
        Padding::Pkcs7 => if dst == w {
            Some(
                wrong_size(
                    "dst size should smaller than src size (minus prepended iv if exists) for current padding type",
                ),
            )
        } else {
            None
        },
    }
}

/// The outcome of setting up AES-CBC decryption of `src` bytes into `dst`
/// bytes: the first failing check, in this order, or the transform.
pub open spec fn spec_aes_cbc_new(config: TransformAesCbcParameters, src: u64, dst: u64) -> Result<
    AesCbcModel,
    TransformCreationError,
> {
    let key = opt_bytes(config.key);
    let iv = opt_bytes(config.iv);
    if !(key.len() == 16 || key.len() == 24 || key.len() == 32) {
        Err(wrong_parameter("key", "length should be 16 or 24 or 32"))
    } else if iv.len() == 0 && config.iv_prepended != Some(true) {
        Err(wrong_parameter("iv", "required if iv_prepended is false"))
    } else if iv.len() != 0 && iv.len() != 16 {
        Err(wrong_parameter("iv", "length should be 16"))
    } else if config_padding(config) is None {
        Err(wrong_parameter("padding", "required"))
    } else if src % 16 != 0 {
        Err(wrong_size("src size should be multiple of 16 if there are no padding"))
    } else if src < iv_overhead(config) {
        Err(wrong_size("src too small"))
    } else {
        let w = (src - iv_overhead(config)) as u64;
        if dst > w {
            Err(wrong_size("dst too big"))
        } else if w >= 16 && dst < w - 16 {
            Err(wrong_size("dst too small"))
        } else {
            match check_padding(config_padding(config)->0, w, dst) {
                Some(e) => Err(e),
                None => Ok(
                    AesCbcModel {
                        key,
                        iv: if iv.len() == 0 {
                            None
                        } else {
                            Some(iv)
                        },
                        padding: padding_model(config_padding(config)->0),
                        src_size: src,
                        dst_size: dst,
                    },
                ),
            }
        }
    }
}

/// Whether an AES-CBC transform can be run backwards (encrypting the derived
/// blob into the source): the first failing check, or none.
pub open spec fn spec_aes_cbc_reversed(m: AesCbcModel) -> Option<TransformCreationError> {
    if m.iv is None {
        Some(wrong_parameter("iv", "iv is required when reversing"))
    } else if m.padding matches PaddingModel::Iso10126(b) && b.len() == 0 {
        Some(wrong_parameter("padding.iso10126", "bytes are required when reversing"))
    } else {
        None
    }
}

fn clone_padding(p: &Padding) -> (r: Padding)
    ensures
        padding_model(r) == padding_model(*p),
{
    match p {
        Padding::Passthrough => Padding::Passthrough,
        Padding::Iso10126(b) => Padding::Iso10126(slice_to_vec(b.as_slice())),
        Padding::Pkcs7 => Padding::Pkcs7,
    }
}

impl TransformerBase for AesCbc {
    type Config = TransformAesCbcParameters;
    type StraightTransformer = DecAesCbc;
    type ReversedTransformer = EncAesCbc;

    fn new(config: &TransformAesCbcParameters, src_size: u64, dst_size: u64) -> (r: Result<
        AesCbc,
        TransformCreationError,
    >)
        ensures
            match (r, spec_aes_cbc_new(*config, src_size, dst_size)) {
                (Ok(a), Ok(m)) => a.view() == m,
                (Err(e), Err(f)) => e == f,
                _ => false,
            },
    {
        let key = config.key();
        let key = if key.len() == 16 {
            AesKey::Aes128(slice_to_vec(key))
        } else if key.len() == 24 {
            AesKey::Aes192(slice_to_vec(key))
        } else if key.len() == 32 {
            AesKey::Aes256(slice_to_vec(key))
        } else {
            return Err(
                TransformCreationError::WrongParameter {
                    key: "key",
                    reason: "length should be 16 or 24 or 32",
                },
            );
        };
        let iv = config.iv();
        let iv: Option<Vec<u8>> = if iv.len() == 0 {
            if !config.iv_prepended() {
                return Err(
                    TransformCreationError::WrongParameter {
                        key: "iv",
                        reason: "required if iv_prepended is false",
                    },
                );
            }
            None
        } else {
            if iv.len() != 16 {
                return Err(
                    TransformCreationError::WrongParameter {
                        key: "iv",
                        reason: "length should be 16",
                    },
                );
            }
            Some(slice_to_vec(iv))
        };
        let padding = match &config.padding {
            Some(p) => match &p.padding {
                Some(p) => clone_padding(p),
                None => {
                    return Err(
                        TransformCreationError::WrongParameter { key: "padding", reason: "required" },
                    );
                },
            },
            None => {
                return Err(
                    TransformCreationError::WrongParameter { key: "padding", reason: "required" },
                );
            },
        };
        if src_size % 16 != 0 {
            return Err(
                TransformCreationError::WrongSize {
                    reason: "src size should be multiple of 16 if there are no padding",
                },
            );
        }
        let overhead: u64 = if config.iv_prepended() {
            16
        } else {
            0
        };
        if src_size < overhead {
            return Err(TransformCreationError::WrongSize { reason: "src too small" });
        }
        let src_size_without_iv = src_size - overhead;
        if dst_size > src_size_without_iv {
            return Err(TransformCreationError::WrongSize { reason: "dst too big" });
        }
        if src_size_without_iv >= 16 && dst_size < src_size_without_iv - 16 {
            return Err(TransformCreationError::WrongSize { reason: "dst too small" });
        }
        match &padding {
            Padding::Passthrough => {
                if dst_size != src_size_without_iv {
                    return Err(
                        TransformCreationError::WrongSize {
                            reason: "dst size should be same as src size (minus prepended iv if exists) if there are no padding",
                        },
                    );
                }
            },
            Padding::Iso10126(bytes) => {
                if bytes.len() == 0 {
                    if dst_size == src_size_without_iv {
                        return Err(
                            TransformCreationError::WrongSize {
                                reason: "dst size should smaller than src size (minus prepended iv if exists) for current padding type",
                            },
                        );
                    }
                } else {
                    let expected_size = src_size_without_iv - dst_size;
                    if bytes.len() as u64 != expected_size {
                        return Err(
                            TransformCreationError::WrongParameter {
                                key: "padding.iso10126",
                                reason: "wrong padding size",
                            },
                        );
                    }
                    if bytes[bytes.len() - 1] as u64 != bytes.len() as u64 {
                        return Err(
                            TransformCreationError::WrongParameter {
                                key: "padding.iso10126",
                                reason: "padding mismatched with size",
                            },
                        );
                    }
                }
            },
            Padding::Pkcs7 => {
                if dst_size == src_size_without_iv {
                    return Err(
                        TransformCreationError::WrongSize {
                            reason: "dst size should smaller than src size (minus prepended iv if exists) for current padding type",
                        },
                    );
                }
            },
        }
        Ok(AesCbc { key, iv, padding, src_size, dst_size })
    }

    fn straight(&self) -> (t: DecAesCbc) {
        DecAesCbc {  }
    }

    fn reversed(&self) -> (r: Result<EncAesCbc, TransformCreationError>)
        ensures
            match (r, spec_aes_cbc_reversed(self.view())) {
                (Ok(_), None) => true,
                (Err(e), Some(f)) => e == f,
                _ => false,
            },
    {
        if self.iv.is_none() {
            return Err(
                TransformCreationError::WrongParameter {
                    key: "iv",
                    reason: "iv is required when reversing",
                },
            );
        }
        if let Padding::Iso10126(bytes) = &self.padding {
            if bytes.len() == 0 {
                return Err(
                    TransformCreationError::WrongParameter {
                        key: "padding.iso10126",
                        reason: "bytes are required when reversing",
                    },
                );
            }
        }
        Ok(EncAesCbc {  })
    }
}

/// Sets up the transform that `transform` names for a source of `src_size`
/// bytes and a derived blob of `dst_size` bytes.
pub fn make_transformer_from_proto(transform: &Transform, src_size: u64, dst_size: u64) -> (r:
    Result<AesCbc, TransformCreationError>)
    ensures
        match transform {
            Transform::DecDeflate(_) => r == Err::<AesCbc, _>(TransformCreationError::NotImplemented),
            Transform::DecAesCbc(p) => match (r, spec_aes_cbc_new(*p, src_size, dst_size)) {
                (Ok(a), Ok(m)) => a.view() == m,
                (Err(e), Err(f)) => e == f,
                _ => false,
            },
        },
{
    match transform {
        Transform::DecDeflate(_) => Err(TransformCreationError::NotImplemented),
        Transform::DecAesCbc(p) => AesCbc::new(p, src_size, dst_size),
    }
}

/// With a usable key and iv and PKCS #7 padding, and a source that is whole
/// blocks and holds at least one block of ciphertext (`w` bytes, after the
/// prepended iv if there is one), the derived size is accepted exactly when
/// it lies in the last block: `w - 16 <= dst < w` (PKCS #7 always pads, by
/// between 1 and 16 bytes). Below that the size is refused as too small,
/// above the ciphertext as too big.
pub proof fn lemma_aes_cbc_pkcs7_sizes(config: TransformAesCbcParameters, src: u64, dst: u64)
    requires
        opt_bytes(config.key).len() == 16 || opt_bytes(config.key).len() == 24 || opt_bytes(
            config.key,
        ).len() == 32,
        opt_bytes(config.iv).len() == 16 || (opt_bytes(config.iv).len() == 0 && config.iv_prepended
            == Some(true)),
        config.padding == (Some(AesCbcPadding { padding: Some(Padding::Pkcs7) })),
        src % 16 == 0,
        src >= 16 + (if config.iv_prepended == Some(true) { 16int } else { 0int }),
    ensures
        ({
            let w = src - (if config.iv_prepended == Some(true) { 16int } else { 0int });
            &&& (spec_aes_cbc_new(config, src, dst) is Ok <==> w - 16 <= dst && dst < w)
            &&& dst + 16 < w ==> spec_aes_cbc_new(config, src, dst) == Err::<AesCbcModel, TransformCreationError>(
                TransformCreationError::WrongSize { reason: "dst too small" },
            )
            &&& dst > w ==> spec_aes_cbc_new(config, src, dst) == Err::<AesCbcModel, TransformCreationError>(
                TransformCreationError::WrongSize { reason: "dst too big" },
            )
            &&& spec_aes_cbc_new(config, src, dst) matches Ok(m) ==> m.src_size == src && m.dst_size == dst
                && m.key == opt_bytes(config.key) && m.padding == PaddingModel::Pkcs7 && (m.iv is Some
                <==> opt_bytes(config.iv).len() == 16)
        }),
{
}

/// With a usable key and iv and ISO 10126 padding whose bytes are given,
/// a derived size in the last block whose padding bytes number `w - dst`
/// and end with that number is accepted, and the transform keeps those
/// bytes; with an iv given it can then be run backwards.
pub proof fn lemma_aes_cbc_iso10126_known_bytes(config: TransformAesCbcParameters, bytes: Vec<u8>, src: u64, dst: u64)
    requires
        opt_bytes(config.key).len() == 16 || opt_bytes(config.key).len() == 24 || opt_bytes(
            config.key,
        ).len() == 32,
        opt_bytes(config.iv).len() == 16,
        config.padding == (Some(AesCbcPadding { padding: Some(Padding::Iso10126(bytes)) })),
        src % 16 == 0,
        src >= 16 + (if config.iv_prepended == Some(true) { 16int } else { 0int }),
        1 <= bytes@.len() <= 16,
        dst == src - (if config.iv_prepended == Some(true) { 16int } else { 0int }) - bytes@.len(),
        bytes@.last() == bytes@.len(),
    ensures
        spec_aes_cbc_new(config, src, dst) is Ok,
        spec_aes_cbc_new(config, src, dst) matches Ok(m) ==> m.padding == PaddingModel::Iso10126(bytes@)
            && m.iv == Some(opt_bytes(config.iv)) && m.src_size == src && m.dst_size == dst
            && spec_aes_cbc_reversed(m) is None,
{
}

/// A transform can be run backwards exactly when its iv is known and its
/// padding is not ISO 10126 with unknown bytes: any other padding, and ISO
/// 10126 with its bytes given, can be redone by encrypting.
pub proof fn lemma_aes_cbc_reversible(m: AesCbcModel)
    ensures
        spec_aes_cbc_reversed(m) is None <==> (m.iv is Some && match m.padding {
            PaddingModel::Iso10126(b) => b.len() > 0,
            _ => true,
        }),
        m.iv is None ==> spec_aes_cbc_reversed(m) == (Some(TransformCreationError::WrongParameter {
            key: "iv",
            reason: "iv is required when reversing",
        })),
{
}

/// The parameters are checked before the sizes, in this order: a key that
/// is not 16, 24 or 32 bytes long; no iv while none leads the source; an iv
/// that is not one block; no padding.
pub proof fn lemma_aes_cbc_parameter_checks(config: TransformAesCbcParameters, src: u64, dst: u64)
    ensures
        !(opt_bytes(config.key).len() == 16 || opt_bytes(config.key).len() == 24 || opt_bytes(config.key).len()
            == 32) ==> spec_aes_cbc_new(config, src, dst) == Err::<AesCbcModel, TransformCreationError>(
            TransformCreationError::WrongParameter { key: "key", reason: "length should be 16 or 24 or 32" },
        ),
        (opt_bytes(config.key).len() == 16 || opt_bytes(config.key).len() == 24 || opt_bytes(config.key).len()
            == 32) && opt_bytes(config.iv).len() == 0 && config.iv_prepended != Some(true)
            ==> spec_aes_cbc_new(config, src, dst) == Err::<AesCbcModel, TransformCreationError>(
            TransformCreationError::WrongParameter { key: "iv", reason: "required if iv_prepended is false" },
        ),
        (opt_bytes(config.key).len() == 16 || opt_bytes(config.key).len() == 24 || opt_bytes(config.key).len()
            == 32) && opt_bytes(config.iv).len() != 0 && opt_bytes(config.iv).len() != 16
            ==> spec_aes_cbc_new(config, src, dst) == Err::<AesCbcModel, TransformCreationError>(
            TransformCreationError::WrongParameter { key: "iv", reason: "length should be 16" },
        ),
        spec_aes_cbc_new(config, src, dst) is Ok ==> src % 16 == 0 && (config.padding matches Some(p)
            && p.padding is Some),
{
}

/// Without padding the plaintext is the whole ciphertext: with a usable key
/// and iv and a source of whole blocks (after any prepended iv), the derived
/// size is accepted exactly when it equals the ciphertext's. With ISO 10126
/// padding whose bytes are not given, it is accepted exactly when it lies in
/// the last block, short of the ciphertext's end.
pub proof fn lemma_aes_cbc_other_paddings(config: TransformAesCbcParameters, src: u64, dst: u64)
    requires
        opt_bytes(config.key).len() == 16 || opt_bytes(config.key).len() == 24 || opt_bytes(
            config.key,
        ).len() == 32,
        opt_bytes(config.iv).len() == 16 || (opt_bytes(config.iv).len() == 0 && config.iv_prepended
            == Some(true)),
        src % 16 == 0,
        src >= 16 + (if config.iv_prepended == Some(true) { 16int } else { 0int }),
    ensures
        ({
            let w = src - (if config.iv_prepended == Some(true) { 16int } else { 0int });
            &&& config.padding == (Some(AesCbcPadding { padding: Some(Padding::Passthrough) })) ==> (
            spec_aes_cbc_new(config, src, dst) is Ok <==> dst == w)
            &&& (config.padding matches Some(p) && p.padding matches Some(Padding::Iso10126(b)) && b@.len() == 0)
                ==> (spec_aes_cbc_new(config, src, dst) is Ok <==> w - 16 <= dst && dst < w)
        }),
{
}

} // verus!
