//! Tokens and their persisted byte form.
//!
//! A [`Token`] is the provider's access/refresh pair together with the
//! absolute expiry timestamp computed when it was issued. It is constructed
//! once from a provider response and never mutated; refreshing builds a new
//! value. For sealing, a token is framed as bytes by a length-prefixed
//! encoding whose decoder is verified to invert it.

use vstd::bytes::{
    lemma_auto_spec_u32_to_from_le_bytes, lemma_auto_spec_u64_to_from_le_bytes,
    spec_u32_from_le_bytes, spec_u32_to_le_bytes, spec_u64_from_le_bytes, spec_u64_to_le_bytes,
    u32_from_le_bytes, u32_to_le_bytes, u64_from_le_bytes, u64_to_le_bytes,
};
use vstd::prelude::*;
use vstd::slice::{slice_subrange, slice_to_vec};

verus! {

/// The longest access or refresh token the store will carry; keeps every
/// framed token far below the sealing size limit.
pub const MAX_FIELD_LEN: usize = 0xFF_FFFF;

/// What the token endpoint reports on a successful exchange or refresh: the
/// pair of tokens and the lifetime of the access token in seconds.
pub struct TokenResponse {
    pub access_token: Vec<u8>,
    pub refresh_token: Vec<u8>,
    pub expires_in: i64,
}

/// An issued token: the provider's access/refresh pair and the absolute
/// expiry timestamp (unix seconds) fixed at issuance.
pub struct Token {
    pub access_token: Vec<u8>,
    pub refresh_token: Vec<u8>,
    pub expires_at: i64,
}

/// The mathematical shape of a [`Token`].
pub struct TokenView {
    pub access_token: Seq<u8>,
    pub refresh_token: Seq<u8>,
    pub expires_at: i64,
}

impl TokenView {
    /// Both token strings are of storable length and the expiry is an
    /// absolute (non-negative) timestamp.
    pub open spec fn wf(self) -> bool {
        &&& self.access_token.len() <= MAX_FIELD_LEN
        &&& self.refresh_token.len() <= MAX_FIELD_LEN
        &&& 0 <= self.expires_at
    }
}

impl View for Token {
    type V = TokenView;

    open spec fn view(&self) -> TokenView {
        TokenView {
            access_token: self.access_token@,
            refresh_token: self.refresh_token@,
            expires_at: self.expires_at,
        }
    }
}

impl Token {
    pub open spec fn wf(&self) -> bool {
        self@.wf()
    }

    /// Builds the token issued at `now` from a provider response: the
    /// absolute expiry is the issuance time plus the reported lifetime.
    pub fn new(inner: TokenResponse, now: i64) -> (r: Token)
        requires
            0 <= now,
            0 <= inner.expires_in,
            now + inner.expires_in <= i64::MAX,
            inner.access_token@.len() <= MAX_FIELD_LEN,
            inner.refresh_token@.len() <= MAX_FIELD_LEN,
        ensures
            r@.access_token == inner.access_token@,
            r@.refresh_token == inner.refresh_token@,
            r@.expires_at == now + inner.expires_in,
            r.wf(),
    {
        Token {
            access_token: inner.access_token,
            refresh_token: inner.refresh_token,
            expires_at: now + inner.expires_in,
        }
    }

    /// Whether the token's absolute expiry has passed at time `now`.
    pub fn has_expired(&self, now: i64) -> (r: bool)
        ensures
            r == (now >= self@.expires_at),
    {
        now >= self.expires_at
    }
}

/// Law: a refresh performed at or after the old expiry, with a positive
/// reported lifetime, yields a strictly later expiry than the token it
/// replaces ([`Token::new`] fixes the new expiry at `now + expires_in`).
pub proof fn lemma_refresh_extends_expiry(old_expires_at: i64, now: i64, expires_in: i64)
    requires
        now >= old_expires_at,
        expires_in > 0,
        now + expires_in <= i64::MAX,
    ensures
        now + expires_in > old_expires_at,
{
}

/// The persisted frame of a token: each byte string behind a four-byte
/// little-endian length, then the expiry as eight little-endian bytes.
pub open spec fn token_bytes(t: TokenView) -> Seq<u8> {
    spec_u32_to_le_bytes(t.access_token.len() as u32) + t.access_token + spec_u32_to_le_bytes(
        t.refresh_token.len() as u32,
    ) + t.refresh_token + spec_u64_to_le_bytes(t.expires_at as u64)
}

/// What decoding a byte string as a token frame yields: the token, or
/// nothing when the lengths do not add up or the expiry is out of range.
pub open spec fn spec_decode_token(b: Seq<u8>) -> Option<TokenView> {
    if b.len() < 4 {
        None
    } else {
        let alen = spec_u32_from_le_bytes(b.subrange(0, 4)) as int;
        if b.len() - 4 < alen || b.len() - 4 - alen < 4 {
            None
        } else {
            let rlen = spec_u32_from_le_bytes(b.subrange(4 + alen, 8 + alen)) as int;
            if b.len() - 8 - alen < rlen || b.len() - 8 - alen - rlen != 8 {
                None
            } else {
                let e = spec_u64_from_le_bytes(
                    b.subrange(8 + alen + rlen, 16 + alen + rlen),
                );
                if e <= i64::MAX as u64 {
                    Some(
                        TokenView {
                            access_token: b.subrange(4, 4 + alen),
                            refresh_token: b.subrange(8 + alen, 8 + alen + rlen),
                            expires_at: e as i64,
                        },
                    )
                } else {
                    None
                }
            }
        }
    }
}

/// Frames a token as bytes for sealing.
pub fn encode_token(t: &Token) -> (r: Vec<u8>)
    requires
        t.wf(),
    ensures
        r@ == token_bytes(t@),
        r@.len() == 16 + t@.access_token.len() + t@.refresh_token.len(),
{
    proof {
        lemma_auto_spec_u32_to_from_le_bytes();
        lemma_auto_spec_u64_to_from_le_bytes();
    }
    let mut out = u32_to_le_bytes(t.access_token.len() as u32);
    out.extend_from_slice(t.access_token.as_slice());
    let mut rlen = u32_to_le_bytes(t.refresh_token.len() as u32);
    out.append(&mut rlen);
    out.extend_from_slice(t.refresh_token.as_slice());
    let mut expiry = u64_to_le_bytes(t.expires_at as u64);
    out.append(&mut expiry);
    proof {
        assert(out@ =~= token_bytes(t@));
    }
    out
}

/// Reads a token back out of its byte frame; inverse of [`encode_token`].
pub fn decode_token(b: &Vec<u8>) -> (r: Option<Token>)
    ensures
        match (r, spec_decode_token(b@)) {
            (Some(t), Some(s)) => t@ == s,
            (None, None) => true,
            _ => false,
        },
{
    proof {
        lemma_auto_spec_u32_to_from_le_bytes();
        lemma_auto_spec_u64_to_from_le_bytes();
    }
    let n = b.len();
    if n < 4 {
        return None;
    }
    let alen32 = u32_from_le_bytes(slice_subrange(b.as_slice(), 0, 4));
    let alen = alen32 as usize;
    if n - 4 < alen || n - 4 - alen < 4 {
        return None;
    }
    let rlen32 = u32_from_le_bytes(slice_subrange(b.as_slice(), 4 + alen, 8 + alen));
    let rlen = rlen32 as usize;
    if n - 8 - alen < rlen || n - 8 - alen - rlen != 8 {
        return None;
    }
    let expiry = u64_from_le_bytes(
        slice_subrange(b.as_slice(), 8 + alen + rlen, 16 + alen + rlen),
    );
    if expiry > i64::MAX as u64 {
        return None;
    }
    let access_token = slice_to_vec(slice_subrange(b.as_slice(), 4, 4 + alen));
    let refresh_token = slice_to_vec(slice_subrange(b.as_slice(), 8 + alen, 8 + alen + rlen));
    Some(Token { access_token, refresh_token, expires_at: expiry as i64 })
}

/// Law: decoding the frame of a well-formed token yields that token back —
/// the byte codec loses nothing.
pub proof fn lemma_token_codec_round_trip(t: TokenView)
    requires
        t.wf(),
    ensures
        spec_decode_token(token_bytes(t)) == Some(t),
{
    lemma_auto_spec_u32_to_from_le_bytes();
    lemma_auto_spec_u64_to_from_le_bytes();
    let b = token_bytes(t);
    let alen = t.access_token.len() as int;
    let rlen = t.refresh_token.len() as int;
    assert(b.subrange(0, 4) =~= spec_u32_to_le_bytes(t.access_token.len() as u32));
    assert(b.subrange(4 + alen, 8 + alen) =~= spec_u32_to_le_bytes(
        t.refresh_token.len() as u32,
    ));
    assert(b.subrange(8 + alen + rlen, 16 + alen + rlen) =~= spec_u64_to_le_bytes(
        t.expires_at as u64,
    ));
    assert(b.subrange(4, 4 + alen) =~= t.access_token);
    assert(b.subrange(8 + alen, 8 + alen + rlen) =~= t.refresh_token);
    assert(spec_decode_token(b) == Some(t));
}

} // verus!
