//! Session tokens: random bytes, carried as URL-safe unpadded base64 and
//! compared in constant time.
use vstd::prelude::*;

use base64::Engine;

verus! {

/// Number of random bytes in a token.
pub const TOKEN_LEN: usize = 20;

#[verifier::external_type_specification]
#[verifier::external_body]
pub struct ExDecodeError(base64::DecodeError);

#[verifier::external_type_specification]
#[verifier::external_body]
pub struct ExRandomError(getrandom::Error);

/// The URL-safe, unpadded base64 text of some bytes.
pub uninterp spec fn base64url_encoding(b: Seq<u8>) -> Seq<char>;

/// The bytes that a URL-safe, unpadded base64 text stands for, if it is
/// well formed.
pub uninterp spec fn base64url_decoding(s: Seq<char>) -> Option<Seq<u8>>;

/// Relies on base64's `URL_SAFE_NO_PAD.encode`: the encoding of the bytes.
/// It panics only when the encoded length would overflow `usize`.
#[verifier::external_body]
fn encode_base64url(b: &[u8]) -> (r: String)
    requires
        b@.len() <= usize::MAX / 2,
    ensures
        r@ == base64url_encoding(b@),
{
    base64::engine::general_purpose::URL_SAFE_NO_PAD.encode(b)
}

/// Relies on base64's `URL_SAFE_NO_PAD.decode`: whether the text is
/// accepted, and the bytes it gives, depend on the text alone.
#[verifier::external_body]
fn decode_base64url(s: &str) -> (r: Result<Vec<u8>, base64::DecodeError>)
    ensures
        match r {
            Ok(v) => base64url_decoding(s@) == Some(v@),
            Err(_) => base64url_decoding(s@) is None,
        },
{
    base64::engine::general_purpose::URL_SAFE_NO_PAD.decode(s)
}

/// Relies on `getrandom::fill`: overwrites the buffer in place with OS
/// randomness, keeping its length, or reports an error.
#[verifier::external_body]
fn fill_random(buf: &mut Vec<u8>) -> (r: Result<(), getrandom::Error>)
    ensures
        final(buf)@.len() == old(buf)@.len(),
{
    getrandom::fill(buf.as_mut_slice())
}

/// Relies on subtle's `ConstantTimeEq` for slices: it yields 1 exactly when
/// the lengths and all bytes are equal.
#[verifier::external_body]
fn ct_eq_bytes(a: &[u8], b: &[u8]) -> (r: bool)
    ensures
        r == (a@ == b@),
{
    subtle::ConstantTimeEq::ct_eq(a, b).into()
}

/// Why a token could not be made.
#[derive(Debug)]
pub enum TokenError {
    /// The OS random source failed.
    GetRandom(getrandom::Error),
    /// The text is not URL-safe unpadded base64.
    Base64(base64::DecodeError),
    /// The decoded token has the wrong number of bytes.
    InvalidLength { expected: usize, got: usize },
}

/// An opaque random token.
#[derive(Debug)]
pub struct Token {
    bytes: Vec<u8>,
}

impl Token {
    #[verifier::type_invariant]
    spec fn inv(self) -> bool {
        self.bytes@.len() == TOKEN_LEN
    }

    /// The token's bytes.
    pub closed spec fn bytes_spec(&self) -> Seq<u8> {
        self.bytes@
    }

    /// A new token from the OS random source.
    pub fn generate() -> (r: Result<Token, TokenError>)
        ensures
            r is Err ==> r->Err_0 is GetRandom,
    {
        let mut bytes: Vec<u8> = Vec::new();
        let mut i: usize = 0;
        while i < TOKEN_LEN
            invariant
                i <= TOKEN_LEN,
                bytes@.len() == i,
            decreases TOKEN_LEN - i,
        {
            bytes.push(0u8);
            i = i + 1;
        }
        match fill_random(&mut bytes) {
            Ok(()) => Ok(Token { bytes }),
            Err(e) => Err(TokenError::GetRandom(e)),
        }
    }

    /// The raw token bytes.
    pub fn as_bytes(&self) -> (r: &[u8])
        ensures
            r@ == self.bytes_spec(),
    {
        self.bytes.as_slice()
    }

    /// The token as URL-safe base64 without padding.
    pub fn to_base64url(&self) -> (r: String)
        ensures
            r@ == base64url_encoding(self.bytes_spec()),
    {
        proof {
            use_type_invariant(self);
        }
        encode_base64url(self.bytes.as_slice())
    }

    /// The token with the given decoded bytes, if there are `TOKEN_LEN` of them.
    pub fn from_decoded(decoded: Vec<u8>) -> (r: Result<Token, TokenError>)
        ensures
            decoded@.len() == TOKEN_LEN ==> r is Ok && r->Ok_0.bytes_spec() == decoded@,
            decoded@.len() != TOKEN_LEN ==> r is Err && r->Err_0 is InvalidLength
                && r->Err_0->expected == TOKEN_LEN && r->Err_0->got == decoded@.len(),
    {
        if decoded.len() != TOKEN_LEN {
            return Err(TokenError::InvalidLength { expected: TOKEN_LEN, got: decoded.len() });
        }
        Ok(Token { bytes: decoded })
    }

    /// Reads a token written by `to_base64url`.
    pub fn from_base64url(s: &str) -> (r: Result<Token, TokenError>)
        ensures
            match base64url_decoding(s@) {
                None => r is Err && r->Err_0 is Base64,
                Some(b) => if b.len() == TOKEN_LEN {
                    r is Ok && r->Ok_0.bytes_spec() == b
                } else {
                    r is Err && r->Err_0 is InvalidLength && r->Err_0->expected == TOKEN_LEN
                        && r->Err_0->got == b.len()
                },
            },
    {
        match decode_base64url(s) {
            Ok(decoded) => Token::from_decoded(decoded),
            Err(e) => Err(TokenError::Base64(e)),
        }
    }

    /// A copy of the token.
    pub fn duplicate(&self) -> (r: Token)
        ensures
            r.bytes_spec() == self.bytes_spec(),
    {
        proof {
            use_type_invariant(self);
        }
        let mut bytes: Vec<u8> = Vec::new();
        let mut i: usize = 0;
        while i < self.bytes.len()
            invariant
                i <= self.bytes@.len(),
                bytes@ == self.bytes@.subrange(0, i as int),
            decreases self.bytes@.len() - i,
        {
            bytes.push(self.bytes[i]);
            i = i + 1;
            assert(bytes@ =~= self.bytes@.subrange(0, i as int));
        }
        assert(bytes@ =~= self.bytes@);
        Token { bytes }
    }

    /// Compares two tokens in time independent of their bytes.
    pub fn ct_eq(&self, other: &Token) -> (r: bool)
        ensures
            r == (self.bytes_spec() == other.bytes_spec()),
    {
        ct_eq_bytes(self.bytes.as_slice(), other.bytes.as_slice())
    }
}

} // verus!
