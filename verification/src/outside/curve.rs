//! P-256 key agreement and signatures, from `p256`, and Ed25519 signatures, from
//! `ed25519-dalek`.

use vstd::prelude::*;

verus! {

/// The coordinates of the public point of a P-256 secret; `None` where the bytes are no secret,
/// that is zero or not below the group order.
pub uninterp spec fn p256_public(secret: Seq<u8>) -> Option<(Seq<u8>, Seq<u8>)>;

/// Whether two coordinates are a point of the P-256 curve.
pub uninterp spec fn p256_on_curve(x: Seq<u8>, y: Seq<u8>) -> bool;

/// The x-coordinate that a P-256 secret and another side's point agree on.
pub uninterp spec fn p256_shared(secret: Seq<u8>, x: Seq<u8>, y: Seq<u8>) -> Option<Seq<u8>>;

/// Whether some bytes are the DER form of an ES256 signature.
pub uninterp spec fn es256_is_signature(der: Seq<u8>) -> bool;

/// Whether an ES256 signature in DER form is one over the message by the key at the point.
pub uninterp spec fn es256_signed(
    x: Seq<u8>,
    y: Seq<u8>,
    message: Seq<u8>,
    der: Seq<u8>,
) -> bool;

/// Whether some bytes are the compressed form of an Ed25519 point.
pub uninterp spec fn ed25519_is_key(key: Seq<u8>) -> bool;

/// Whether an Ed25519 signature is one over the message by the key.
pub uninterp spec fn ed25519_signed(key: Seq<u8>, message: Seq<u8>, signature: Seq<u8>) -> bool;

/// `p256::SecretKey::random` from the operating system's generator: some secret. Which one
/// comes is chance. A system that gives no randomness makes the generator panic.
#[verifier::external_body]
pub(crate) fn random_secret() -> (r: [u8; 32])
    ensures
        p256_public(r@) is Some,
{
    p256::SecretKey::random(&mut p256::elliptic_curve::rand_core::OsRng).to_bytes().into()
}

/// `p256::SecretKey::public_key`, in uncompressed coordinates, which lie on the curve; `None`
/// where `p256::SecretKey::from_bytes` takes the bytes for no secret.
#[verifier::external_body]
pub(crate) fn public_point(secret: &[u8; 32]) -> (r: Option<([u8; 32], [u8; 32])>)
    ensures
        match r {
            Some((x, y)) => p256_public(secret@) == Some((x@, y@)) && p256_on_curve(x@, y@),
            None => p256_public(secret@) is None,
        },
{
    let key = p256::SecretKey::from_bytes(secret.into()).ok()?;
    let point = p256::elliptic_curve::sec1::ToEncodedPoint::to_encoded_point(
        &key.public_key(),
        false,
    );
    Some(((*point.x()?).into(), (*point.y()?).into()))
}

/// `p256::PublicKey::from_encoded_point` on uncompressed coordinates: whether it takes them.
#[verifier::external_body]
pub(crate) fn on_curve(x: &[u8; 32], y: &[u8; 32]) -> (r: bool)
    ensures
        r == p256_on_curve(x@, y@),
{
    let point = p256::EncodedPoint::from_affine_coordinates(x.into(), y.into(), false);
    let key: Option<p256::PublicKey> =
        p256::elliptic_curve::sec1::FromEncodedPoint::from_encoded_point(&point).into();
    key.is_some()
}

/// `p256::ecdh::diffie_hellman` of a secret and another side's point: the raw x-coordinate of
/// the shared point. There is one for every secret and every point of the curve.
#[verifier::external_body]
pub(crate) fn shared_x(secret: &[u8; 32], x: &[u8; 32], y: &[u8; 32]) -> (r: Option<[u8; 32]>)
    ensures
        match r {
            Some(shared) => p256_shared(secret@, x@, y@) == Some(shared@),
            None => p256_shared(secret@, x@, y@) is None,
        },
        r is Some == (p256_public(secret@) is Some && p256_on_curve(x@, y@)),
{
    let key = p256::SecretKey::from_bytes(secret.into()).ok()?;
    let point = p256::EncodedPoint::from_affine_coordinates(x.into(), y.into(), false);
    let other: Option<p256::PublicKey> =
        p256::elliptic_curve::sec1::FromEncodedPoint::from_encoded_point(&point).into();
    let shared = p256::ecdh::diffie_hellman(key.to_nonzero_scalar(), other?.as_affine());
    Some((*shared.raw_secret_bytes()).into())
}

/// `p256::ecdsa::Signature::from_der`: whether it takes the bytes.
#[verifier::external_body]
pub(crate) fn is_es256_signature(der: &[u8]) -> (r: bool)
    ensures
        r == es256_is_signature(der@),
{
    p256::ecdsa::Signature::from_der(der).is_ok()
}

/// `p256::ecdsa::VerifyingKey`'s `verify`, with the key built from the coordinates of a curve
/// point and the signature from its DER form: whether it accepts.
#[verifier::external_body]
pub(crate) fn es256_verify(x: &[u8; 32], y: &[u8; 32], message: &[u8], der: &[u8]) -> (r: bool)
    requires
        p256_on_curve(x@, y@),
        es256_is_signature(der@),
    ensures
        r == es256_signed(x@, y@, message@, der@),
{
    let point = p256::EncodedPoint::from_affine_coordinates(x.into(), y.into(), false);
    let key = p256::ecdsa::VerifyingKey::from_encoded_point(&point).unwrap();
    let signature = p256::ecdsa::Signature::from_der(der).unwrap();
    p256::ecdsa::signature::Verifier::verify(&key, message, &signature).is_ok()
}

/// `ed25519_dalek::VerifyingKey::from_bytes`: whether it takes the bytes.
#[verifier::external_body]
pub(crate) fn is_ed25519_key(key: &[u8; 32]) -> (r: bool)
    ensures
        r == ed25519_is_key(key@),
{
    ed25519_dalek::VerifyingKey::from_bytes(key).is_ok()
}

/// `ed25519_dalek::VerifyingKey`'s `verify`, with the key built from its bytes: whether it
/// accepts.
#[verifier::external_body]
pub(crate) fn ed25519_verify(key: &[u8; 32], message: &[u8], signature: &[u8; 64]) -> (r: bool)
    requires
        ed25519_is_key(key@),
    ensures
        r == ed25519_signed(key@, message@, signature@),
{
    let key = ed25519_dalek::VerifyingKey::from_bytes(key).unwrap();
    let signature = ed25519_dalek::Signature::from_bytes(signature);
    ed25519_dalek::Verifier::verify(&key, message, &signature).is_ok()
}

} // verus!
