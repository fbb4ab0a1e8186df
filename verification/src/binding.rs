//! The lazy client binding.
//!
//! Turning a client id and the sealed store into a ready, authenticated
//! handle happens at most once per run: the outcome — success or failure —
//! is recorded in a write-once cell and every later request sees the same
//! outcome without repeating the work. The decisions on the way there are
//! verified here: which id to bind, whether the stored token can be used,
//! must be refreshed, or a fresh browser authorization is needed, and how
//! the provider's response becomes the stored token.

use crate::config::{client_plain_of, sealed_blob, ClientDataView, Config};
use crate::crypto::{decrypt_spec, is_sealed};
use crate::token::{spec_decode_token, token_bytes};
use crate::crypto::MasterKey;
use crate::error::{ApplicationError, ArcAnyhowError};
use crate::nonce::{all_max, be_value};
use crate::token::{Token, TokenResponse, TokenView, MAX_FIELD_LEN};
use vstd::prelude::*;

verus! {

/// Picks the client id to bind: an explicit id wins, otherwise the store's
/// configured default; with neither, binding cannot proceed.
pub fn resolve_client_id(explicit: Option<String>, config: &Config) -> (r: Result<
    String,
    ApplicationError,
>)
    ensures
        match (explicit, r) {
            (Some(e), Ok(id)) => id == e,
            (None, Ok(id)) => config@.default == Some(id@),
            (None, Err(e)) => config@.default is None && e == ApplicationError::ClientIdRequired,
            (Some(_), Err(_)) => false,
        },
{
    match explicit {
        Some(id) => Ok(id),
        None => match config.default() {
            Some(id) => Ok(id.clone()),
            None => Err(ApplicationError::ClientIdRequired),
        },
    }
}

/// What must happen before an authenticated call can proceed.
pub enum AuthStep {
    /// The stored token has not expired: use it unchanged.
    UseStored(Token),
    /// The stored token's absolute expiry has passed: call the refresh
    /// endpoint with it.
    Refresh(Token),
    /// No token is stored: a fresh browser authorization is needed.
    Authorize,
}

/// The step the policy owes a stored token at time `now`.
pub open spec fn step_for(token: Option<TokenView>, now: i64, step: AuthStep) -> bool {
    match token {
        None => step is Authorize,
        Some(tv) => {
            if now >= tv.expires_at {
                step matches AuthStep::Refresh(t) && t@ == tv
            } else {
                step matches AuthStep::UseStored(t) && t@ == tv
            }
        },
    }
}

/// Decides the next step for a stored token at time `now`: a missing token
/// needs authorization, an expired one a refresh, a fresh one is reused.
pub fn next_auth_step(token: Option<Token>, now: i64) -> (r: AuthStep)
    ensures
        step_for(
            match token {
                Some(t) => Some(t@),
                None => None,
            },
            now,
            r,
        ),
{
    match token {
        None => AuthStep::Authorize,
        Some(t) => {
            if t.has_expired(now) {
                AuthStep::Refresh(t)
            } else {
                AuthStep::UseStored(t)
            }
        },
    }
}

/// Everything needed to make authenticated calls for one client, in the
/// order the store and the policy produced it.
pub struct Binding {
    pub id: String,
    pub secret: Vec<u8>,
    pub step: AuthStep,
}

/// Resolves a binding against the store at time `now`: picks the id, opens
/// the client's record under the master key, and decides the token step.
/// Fails with `ClientIdRequired` when no id is available, `UnknownClient`
/// when the id has no record, and `CryptographyError` when the record does
/// not open.
pub fn prepare_binding(config: &Config, key: &MasterKey, explicit: Option<String>, now: i64)
    -> (r: Result<Binding, ApplicationError>)
    requires
        config.wf(),
        key.wf(),
    ensures
        ({
            let resolved = match explicit {
                Some(e) => Some(e@),
                None => config@.default,
            };
            match resolved {
                None => r == Err::<Binding, ApplicationError>(ApplicationError::ClientIdRequired),
                Some(idv) => {
                    if !config@.clients.contains_key(idv) {
                        r == Err::<Binding, ApplicationError>(ApplicationError::UnknownClient)
                    } else {
                        match client_plain_of(key@, config@.clients[idv]) {
                            None => r == Err::<Binding, ApplicationError>(
                                ApplicationError::CryptographyError,
                            ),
                            Some(plain) => match r {
                                Ok(b) => b.id@ == idv && b.secret@ == plain.0 && step_for(
                                    plain.1,
                                    now,
                                    b.step,
                                ),
                                Err(_) => false,
                            },
                        }
                    }
                },
            }
        }),
{
    let id = match resolve_client_id(explicit, config) {
        Ok(id) => id,
        Err(e) => {
            return Err(e);
        },
    };
    match config.get_client_data(&id, key) {
        None => Err(ApplicationError::UnknownClient),
        Some(Err(e)) => Err(e),
        Some(Ok((secret, token))) => {
            let step = next_auth_step(token, now);
            Ok(Binding { id, secret, step })
        },
    }
}

/// The token a provider response issued at `now` denotes.
pub open spec fn issued_token(response: TokenResponse, now: i64) -> TokenView {
    TokenView {
        access_token: response.access_token@,
        refresh_token: response.refresh_token@,
        expires_at: (now + response.expires_in) as i64,
    }
}

/// Builds the token a provider response denotes at time `now` and seals it
/// into the client's record; used after both a code exchange and a refresh.
/// The stored blob opens and decodes back to exactly the returned token; a
/// failed seal (exhausted counter) or an unknown id leaves the store
/// untouched.
pub fn store_fresh_token(
    config: &mut Config,
    id: &String,
    key: &MasterKey,
    response: TokenResponse,
    now: i64,
) -> (r: Result<Token, ApplicationError>)
    requires
        old(config).wf(),
        key.wf(),
        0 <= now,
        0 <= response.expires_in,
        now + response.expires_in <= i64::MAX,
        response.access_token@.len() <= MAX_FIELD_LEN,
        response.refresh_token@.len() <= MAX_FIELD_LEN,
    ensures
        final(config).wf(),
        final(config)@.default == old(config)@.default,
        match r {
            Ok(t) => {
                &&& t@ == issued_token(response, now)
                &&& t@.expires_at == now + response.expires_in
                &&& t.wf()
            },
            Err(e) => e == ApplicationError::CryptographyError && all_max(old(config)@.nonce)
                && old(config)@.clients.contains_key(id@) && final(config)@ == old(config)@,
        },
        r is Ok && old(config)@.clients.contains_key(id@) ==> ({
            let tv = issued_token(response, now);
            let blob = sealed_blob(key@, final(config)@.nonce, token_bytes(tv));
            &&& final(config)@.dirty
            &&& be_value(final(config)@.nonce) == be_value(old(config)@.nonce) + 1
            &&& final(config)@.clients == old(config)@.clients.insert(
                id@,
                (ClientDataView {
                    enc_secret: old(config)@.clients[id@].enc_secret,
                    enc_token: Some(blob),
                }),
            )
            &&& is_sealed(key@, blob, token_bytes(tv))
            &&& decrypt_spec(key@, blob) == Some(token_bytes(tv))
            &&& spec_decode_token(token_bytes(tv)) == Some(tv)
        }),
        !old(config)@.clients.contains_key(id@) ==> r is Ok && final(config)@ == old(config)@,
{
    let ghost tv = issued_token(response, now);
    let token = Token::new(response, now);
    proof {
        assert(token@ == tv);
    }
    match config.set_token(id, &token, key) {
        Ok(()) => {
            proof {
                if old(config)@.clients.contains_key(id@) {
                    let blob = sealed_blob(key@, config@.nonce, token_bytes(tv));
                    crate::crypto::lemma_encrypt_decrypt_round_trip(key@, blob, token_bytes(tv));
                    crate::token::lemma_token_codec_round_trip(tv);
                }
            }
            Ok(token)
        },
        Err(e) => Err(e),
    }
}

/// The mathematical shape of a [`Binding`]; the step is kept whole so that
/// the memoized outcome is pinned exactly.
pub struct BindingView {
    pub id: Seq<char>,
    pub secret: Seq<u8>,
    pub step: AuthStep,
}

/// The outcome a memoized lookup repeats.
pub open spec fn outcome_view(o: Result<Binding, ArcAnyhowError>) -> Result<
    BindingView,
    ApplicationError,
> {
    match o {
        Ok(b) => Ok((BindingView { id: b.id@, secret: b.secret@, step: b.step })),
        Err(e) => Err(e@),
    }
}

/// The write-once cell behind the lazy binding: empty until the first
/// construction, then holding that construction's outcome — the binding or
/// its cheaply clonable failure — for every later lookup. It is owned by
/// the invocation context, not module state.
pub struct LazyBinding {
    cell: Option<Result<Binding, ArcAnyhowError>>,
}

impl View for LazyBinding {
    type V = Option<Result<BindingView, ApplicationError>>;

    closed spec fn view(&self) -> Option<Result<BindingView, ApplicationError>> {
        match self.cell {
            Some(ref o) => Some(outcome_view(*o)),
            None => None,
        }
    }
}

impl LazyBinding {
    /// A binding nobody has asked for yet.
    pub fn new() -> (r: LazyBinding)
        ensures
            r@ is None,
    {
        LazyBinding { cell: None }
    }

    /// Whether the first construction has already happened.
    pub fn is_resolved(&self) -> (r: bool)
        ensures
            r == (self@ is Some),
    {
        self.cell.is_some()
    }

    /// Records the first construction's outcome. The cell is write-once:
    /// filling it twice is ruled out, so the recorded outcome can never be
    /// displaced.
    pub fn fill(&mut self, outcome: Result<Binding, ArcAnyhowError>)
        requires
            old(self)@ is None,
        ensures
            final(self)@ == Some(outcome_view(outcome)),
    {
        self.cell = Some(outcome);
    }

    /// The recorded outcome, exactly as it was filled in.
    pub fn get(&self) -> (r: Option<&Result<Binding, ArcAnyhowError>>)
        ensures
            match r {
                Some(o) => self@ == Some(outcome_view(*o)),
                None => self@ is None,
            },
    {
        self.cell.as_ref()
    }
}

} // verus!
